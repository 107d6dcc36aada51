//! The conversion service: header conversion against a conversion map, the
//! transformation of a row's field values and their validation.

use vstd::prelude::*;
use crate::distance::{edit_distance, edit_distance_chars};
use crate::merge::cells_view;
use crate::fields::{pairs_view, FieldMap};
use crate::model::{
    DataType, EnhancedConversionMap, ErrorSeverity, FieldDefinition, FieldValidationSummary,
    MappingType, TableColumnDefinition, TransformationRule, UiConfig, ValidationError,
    ValidationResult, ValidationRules, XlsxMapping,
};
use crate::transform::{faults_view, rule_check, rule_faults, rule_result, Fault, TransformError, TransformationEngine};
use crate::resolver::{
    cands_view, candidate_of, flat_candidates, lemma_equal_headers_resolve_alike, match_view,
    norm, regex_outcome, regex_search, resolve, resolve_headers, exact_pass, lemma_exact_header_resolves_fully, lemma_exact_match_locks_field, conf, Candidate, CandidateSpec,
    Confidence, HeaderMatch,
};
use crate::simple_map::{default_variations, variations_view, ConversionMap};
use crate::text::{byte_len, utf8_len, blank, chars_of, is_blank, owned, push_str_chars, str_eq, string_of};

verus! {

/// Candidates drawn from the synonym table: every name is an exact pattern.
pub open spec fn synonym_candidates(t: Seq<(Seq<char>, Seq<Seq<char>>)>) -> Seq<CandidateSpec>
    decreases t.len(),
{
    if t.len() == 0 {
        Seq::empty()
    } else {
        synonym_candidates(t.drop_last()) + t.last().1.map_values(
            |p: Seq<char>|
                CandidateSpec {
                    field: t.last().0,
                    pattern: p,
                    mapping_type: MappingType::Exact,
                    priority: 0,
                },
        )
    }
}

/// Resolution of the headers against the map's fields, or against the
/// synonym table where no field matched any header.
pub open spec fn header_resolution(
    hs: Seq<Seq<char>>,
    fields: Seq<(String, FieldDefinition)>,
) -> Seq<Option<(Seq<char>, Confidence)>> {
    let r = resolve(hs, flat_candidates(fields));
    if exists|i: int| 0 <= i < r.len() && r[i] is Some {
        r
    } else {
        resolve(hs, synonym_candidates(default_variations()))
    }
}

/// The headers that matched no field, in order.
pub open spec fn unmatched_headers(
    hs: Seq<Seq<char>>,
    res: Seq<Option<(Seq<char>, Confidence)>>,
) -> Seq<Seq<char>>
    decreases hs.len(),
{
    if hs.len() == 0 || res.len() == 0 {
        Seq::empty()
    } else {
        let p = unmatched_headers(hs.drop_last(), res.drop_last());
        if res.last() is None {
            p.push(hs.last())
        } else {
            p
        }
    }
}

/// What header conversion found: one entry per header, and a warning for each
/// header that matched nothing.
#[derive(Clone, Debug)]
pub struct HeaderConversionResult {
    pub matches: Vec<Option<HeaderMatch>>,
    pub validation_errors: Vec<ValidationError>,
    pub used_fallback: bool,
}

/// Every header pattern of every field, as candidates.
pub fn map_candidates(fields: &Vec<(String, FieldDefinition)>) -> (r: Vec<Candidate>)
    ensures
        cands_view(r@) == flat_candidates(fields@),
{
    let mut r: Vec<Candidate> = Vec::new();
    let mut i: usize = 0;
    assert(fields@.subrange(0, 0) =~= Seq::<(String, FieldDefinition)>::empty());
    assert(cands_view(r@) =~= Seq::<CandidateSpec>::empty());
    while i < fields.len()
        invariant
            i <= fields@.len(),
            cands_view(r@) == flat_candidates(fields@.subrange(0, i as int)),
        decreases fields.len() - i,
    {
        let name = &fields[i].0;
        let maps = &fields[i].1.xlsx_mappings;
        let ghost start = cands_view(r@);
        let mut j: usize = 0;
        while j < maps.len()
            invariant
                j <= maps@.len(),
                i < fields@.len(),
                maps@ == fields@[i as int].1.xlsx_mappings@,
                name == fields@[i as int].0,
                cands_view(r@) == start + maps@.subrange(0, j as int).map_values(
                    |m: XlsxMapping| candidate_of(*name, m),
                ),
            decreases maps.len() - j,
        {
            let m = &maps[j];
            let c = Candidate {
                field: name.clone(),
                pattern: m.pattern.clone(),
                mapping_type: m.mapping_type,
                priority: m.priority,
            };
            assert(c@ == candidate_of(*name, maps@[j as int]));
            let ghost old_r = r@;
            r.push(c);
            assert(cands_view(r@) =~= cands_view(old_r).push(c@));
            assert(maps@.subrange(0, j + 1).map_values(|m: XlsxMapping| candidate_of(*name, m))
                =~= maps@.subrange(0, j as int).map_values(|m: XlsxMapping| candidate_of(*name, m)).push(
                candidate_of(*name, maps@[j as int]),
            ));
            j = j + 1;
            assert(cands_view(r@) =~= start + maps@.subrange(0, j as int).map_values(
                |m: XlsxMapping| candidate_of(*name, m),
            ));
        }
        proof {
            let pre = fields@.subrange(0, i + 1);
            assert(pre.drop_last() =~= fields@.subrange(0, i as int));
            assert(pre.last() == fields@[i as int]);
            assert(maps@.subrange(0, maps@.len() as int) =~= maps@);
        }
        i = i + 1;
    }
    assert(fields@.subrange(0, fields@.len() as int) =~= fields@);
    r
}

/// The synonym table as candidates.
pub fn table_candidates(t: &Vec<(String, Vec<String>)>) -> (r: Vec<Candidate>)
    ensures
        cands_view(r@) == synonym_candidates(variations_view(t@)),
{
    let ghost tv = variations_view(t@);
    let mut r: Vec<Candidate> = Vec::new();
    let mut i: usize = 0;
    assert(tv.subrange(0, 0) =~= Seq::<(Seq<char>, Seq<Seq<char>>)>::empty());
    assert(cands_view(r@) =~= Seq::<CandidateSpec>::empty());
    while i < t.len()
        invariant
            i <= t@.len(),
            tv == variations_view(t@),
            cands_view(r@) == synonym_candidates(tv.subrange(0, i as int)),
        decreases t.len() - i,
    {
        let name = &t[i].0;
        let pats = &t[i].1;
        let ghost start = cands_view(r@);
        let ghost pv = cells_view(pats@);
        let mut j: usize = 0;
        while j < pats.len()
            invariant
                j <= pats@.len(),
                i < t@.len(),
                pats@ == t@[i as int].1@,
                name == t@[i as int].0,
                pv == cells_view(pats@),
                cands_view(r@) == start + pv.subrange(0, j as int).map_values(
                    |p: Seq<char>|
                        CandidateSpec {
                            field: name@,
                            pattern: p,
                            mapping_type: MappingType::Exact,
                            priority: 0,
                        },
                ),
            decreases pats.len() - j,
        {
            let c = Candidate {
                field: name.clone(),
                pattern: pats[j].clone(),
                mapping_type: MappingType::Exact,
                priority: 0,
            };
            let ghost f = |p: Seq<char>|
                CandidateSpec { field: name@, pattern: p, mapping_type: MappingType::Exact, priority: 0 };
            assert(pv[j as int] == pats@[j as int]@);
            assert(c@ == f(pv[j as int]));
            let ghost old_r = r@;
            r.push(c);
            assert(cands_view(r@) =~= cands_view(old_r).push(c@));
            assert(pv.subrange(0, j + 1).map_values(f) =~= pv.subrange(0, j as int).map_values(f).push(f(pv[j as int])));
            j = j + 1;
            assert(cands_view(r@) =~= start + pv.subrange(0, j as int).map_values(
                |p: Seq<char>|
                    CandidateSpec {
                        field: name@,
                        pattern: p,
                        mapping_type: MappingType::Exact,
                        priority: 0,
                    },
            ));
        }
        proof {
            let pre = tv.subrange(0, i + 1);
            assert(pre.drop_last() =~= tv.subrange(0, i as int));
            assert(pre.last() == tv[i as int]);
            assert(pv.subrange(0, pv.len() as int) =~= pv);
        }
        i = i + 1;
    }
    assert(tv.subrange(0, tv.len() as int) =~= tv);
    r
}

/// Builds "No field mapping found for header: <header>".
fn unmatched_message(header: &str) -> (r: String) {
    let mut v: Vec<char> = Vec::new();
    push_str_chars(&mut v, "No field mapping found for header: ");
    push_str_chars(&mut v, header);
    string_of(&v)
}

/// Applies conversion maps to headers, transforms field values and checks them.
pub struct EnhancedConversionService {}

impl EnhancedConversionService {
    pub fn new() -> (r: EnhancedConversionService) {
        EnhancedConversionService {  }
    }

    /// Levenshtein distance between two strings, counted in characters.
    pub fn levenshtein_distance(&self, s1: &str, s2: &str) -> (r: usize)
        ensures
            r == edit_distance(s1@, s2@),
    {
        let a = chars_of(s1);
        let b = chars_of(s2);
        edit_distance_chars(&a, &b)
    }

    /// Resolves headers against the map's fields, falling back to the
    /// built-in synonym table where no field matches any header; headers that
    /// match nothing come back as warnings.
    pub fn convert_headers_with_enhanced_map(
        &self,
        excel_headers: &Vec<String>,
        enhanced_map: &EnhancedConversionMap,
    ) -> (r: HeaderConversionResult)
        ensures
            r.matches@.len() == excel_headers@.len(),
            forall|i: int|
                0 <= i < excel_headers@.len() ==> match_view(#[trigger] r.matches@[i])
                    == header_resolution(
                    cells_view(excel_headers@),
                    enhanced_map.field_definitions@,
                )[i],
            r.validation_errors@.map_values(|e: ValidationError| e.field@) == unmatched_headers(
                cells_view(excel_headers@),
                header_resolution(cells_view(excel_headers@), enhanced_map.field_definitions@),
            ),
            forall|k: int|
                0 <= k < r.validation_errors@.len() ==> (#[trigger] r.validation_errors@[k]).severity
                    == ErrorSeverity::Warning,
    {
        let ghost hs = cells_view(excel_headers@);
        let cands = map_candidates(&enhanced_map.field_definitions);
        let first = resolve_headers(excel_headers, &cands);
        let mut any = false;
        let mut i: usize = 0;
        while i < first.len()
            invariant
                i <= first@.len(),
                !any ==> forall|j: int| 0 <= j < i ==> first@[j] is None,
                any ==> exists|j: int| 0 <= j < first@.len() && first@[j] is Some,
            decreases first.len() - i,
        {
            if first[i].is_some() {
                any = true;
            }
            i = i + 1;
        }
        let ghost r1 = resolve(hs, flat_candidates(enhanced_map.field_definitions@));
        proof {
            if any {
                let j = choose|j: int| 0 <= j < first@.len() && first@[j] is Some;
                assert(match_view(first@[j]) == r1[j]);
            } else {
                assert forall|j: int| 0 <= j < r1.len() implies !(r1[j] is Some) by {
                    assert(match_view(first@[j]) == r1[j]);
                }
            }
        }
        let matches = if any {
            first
        } else {
            let table = ConversionMap::get_default_field_variations();
            let syn = table_candidates(&table);
            resolve_headers(excel_headers, &syn)
        };
        let ghost res = header_resolution(hs, enhanced_map.field_definitions@);
        let mut errors: Vec<ValidationError> = Vec::new();
        let mut i: usize = 0;
        assert(hs.subrange(0, 0) =~= Seq::<Seq<char>>::empty());
        assert(errors@.map_values(|e: ValidationError| e.field@) =~= Seq::<Seq<char>>::empty());
        while i < matches.len()
            invariant
                i <= matches@.len() == excel_headers@.len(),
                hs == cells_view(excel_headers@),
                res.len() == hs.len(),
                forall|j: int| 0 <= j < matches@.len() ==> match_view(#[trigger] matches@[j]) == res[j],
                errors@.map_values(|e: ValidationError| e.field@) == unmatched_headers(
                    hs.subrange(0, i as int),
                    res.subrange(0, i as int),
                ),
                forall|k: int|
                    0 <= k < errors@.len() ==> (#[trigger] errors@[k]).severity
                        == ErrorSeverity::Warning,
            decreases matches.len() - i,
        {
            proof {
                assert(hs.subrange(0, i + 1).drop_last() =~= hs.subrange(0, i as int));
                assert(res.subrange(0, i + 1).drop_last() =~= res.subrange(0, i as int));
                assert(match_view(matches@[i as int]) == res[i as int]);
            }
            if matches[i].is_none() {
                let h = &excel_headers[i];
                errors.push(
                    ValidationError {
                        field: h.clone(),
                        message: unmatched_message(h.as_str()),
                        severity: ErrorSeverity::Warning,
                    },
                );
            }
            i = i + 1;
            assert(errors@.map_values(|e: ValidationError| e.field@) =~= unmatched_headers(
                hs.subrange(0, i as int),
                res.subrange(0, i as int),
            ));
        }
        assert(hs.subrange(0, hs.len() as int) =~= hs);
        assert(res.subrange(0, res.len() as int) =~= res);
        HeaderConversionResult { matches, validation_errors: errors, used_fallback: !any }
    }
}

} // verus!

verus! {

/// The first entry of a named list under `name`.
pub open spec fn def_of(defs: Seq<(String, FieldDefinition)>, name: Seq<char>) -> Option<
    FieldDefinition,
>
    decreases defs.len(),
{
    if defs.len() == 0 {
        None
    } else if defs[0].0@ == name {
        Some(defs[0].1)
    } else {
        def_of(defs.drop_first(), name)
    }
}

pub open spec fn rule_named(rules: Seq<(String, TransformationRule)>, name: Seq<char>) -> Option<
    TransformationRule,
>
    decreases rules.len(),
{
    if rules.len() == 0 {
        None
    } else if rules[0].0@ == name {
        Some(rules[0].1)
    } else {
        rule_named(rules.drop_first(), name)
    }
}

/// The names of the rules configured for a field, in order.
pub open spec fn field_chain(map: EnhancedConversionMap, f: Seq<char>) -> Seq<String> {
    match def_of(map.field_definitions@, f) {
        Some(d) => match d.transformations {
            Some(t) => t@,
            None => Seq::empty(),
        },
        None => Seq::empty(),
    }
}

/// A value threaded through the named rules in order; a missing rule or a
/// failing one leaves the value as it was before it.
pub open spec fn run_chain(
    chain: Seq<String>,
    rules: Seq<(String, TransformationRule)>,
    v: Seq<char>,
    ctx: Seq<(Seq<char>, Seq<char>)>,
) -> Seq<char>
    decreases chain.len(),
{
    if chain.len() == 0 {
        v
    } else {
        let p = run_chain(chain.drop_last(), rules, v, ctx);
        match rule_named(rules, chain.last()@) {
            Some(r) => match rule_result(r, p, ctx) {
                Ok(x) => x,
                Err(_) => p,
            },
            None => p,
        }
    }
}

/// Each field's value after its rules, with the row's values as context.
pub open spec fn transformed_fields(
    data: Seq<(Seq<char>, Seq<char>)>,
    map: EnhancedConversionMap,
) -> Seq<(Seq<char>, Seq<char>)> {
    Seq::new(
        data.len(),
        |i: int|
            (
                data[i].0,
                run_chain(
                    field_chain(map, data[i].0),
                    map.transformation_rules@,
                    data[i].1,
                    data,
                ),
            ),
    )
}

pub fn find_definition<'a>(defs: &'a Vec<(String, FieldDefinition)>, name: &str) -> (r: Option<
    &'a FieldDefinition,
>)
    ensures
        match r {
            Some(d) => def_of(defs@, name@) == Some(*d),
            None => def_of(defs@, name@) is None,
        },
{
    let mut i: usize = 0;
    assert(defs@.subrange(0, defs@.len() as int) =~= defs@);
    while i < defs.len()
        invariant
            i <= defs@.len(),
            def_of(defs@, name@) == def_of(defs@.subrange(i as int, defs@.len() as int), name@),
        decreases defs.len() - i,
    {
        assert(defs@.subrange(i as int, defs@.len() as int).drop_first() =~= defs@.subrange(
            i + 1,
            defs@.len() as int,
        ));
        assert(defs@.subrange(i as int, defs@.len() as int)[0] == defs@[i as int]);
        if str_eq(defs[i].0.as_str(), name) {
            return Some(&defs[i].1);
        }
        i = i + 1;
    }
    None
}

pub fn find_rule<'a>(rules: &'a Vec<(String, TransformationRule)>, name: &str) -> (r: Option<
    &'a TransformationRule,
>)
    ensures
        match r {
            Some(d) => rule_named(rules@, name@) == Some(*d),
            None => rule_named(rules@, name@) is None,
        },
{
    let mut i: usize = 0;
    assert(rules@.subrange(0, rules@.len() as int) =~= rules@);
    while i < rules.len()
        invariant
            i <= rules@.len(),
            rule_named(rules@, name@) == rule_named(
                rules@.subrange(i as int, rules@.len() as int),
                name@,
            ),
        decreases rules.len() - i,
    {
        assert(rules@.subrange(i as int, rules@.len() as int).drop_first() =~= rules@.subrange(
            i + 1,
            rules@.len() as int,
        ));
        assert(rules@.subrange(i as int, rules@.len() as int)[0] == rules@[i as int]);
        if str_eq(rules[i].0.as_str(), name) {
            return Some(&rules[i].1);
        }
        i = i + 1;
    }
    None
}

/// A rule that could not be applied to a field: missing from the map
/// (`error` is `None`) or failing.
#[derive(Clone, Debug)]
pub struct RuleFailure {
    pub field: String,
    pub rule: String,
    pub error: Option<TransformError>,
}

/// Transformed field values with the rules that could not be applied.
#[derive(Clone, Debug)]
pub struct TransformReport {
    pub fields: FieldMap,
    pub failures: Vec<RuleFailure>,
}

pub open spec fn failures_view(v: Seq<RuleFailure>) -> Seq<(Seq<char>, Seq<char>)> {
    v.map_values(|f: RuleFailure| (f.field@, f.rule@))
}

/// One `(field, rule)` entry per fault.
pub open spec fn tagged(fs: Seq<Fault>, field: Seq<char>, rule: Seq<char>) -> Seq<(Seq<char>, Seq<char>)> {
    fs.map_values(|f: Fault| (field, rule))
}

/// The rules of a chain that are missing or fail, each with its field; a
/// rule appears once for each pipeline step of it that failed.
pub open spec fn chain_failures(
    field: Seq<char>,
    chain: Seq<String>,
    rules: Seq<(String, TransformationRule)>,
    v: Seq<char>,
    ctx: Seq<(Seq<char>, Seq<char>)>,
) -> Seq<(Seq<char>, Seq<char>)>
    decreases chain.len(),
{
    if chain.len() == 0 {
        Seq::empty()
    } else {
        let p = chain_failures(field, chain.drop_last(), rules, v, ctx);
        let cur = run_chain(chain.drop_last(), rules, v, ctx);
        match rule_named(rules, chain.last()@) {
            Some(r) => if rule_result(r, cur, ctx) is Err {
                p.push((field, chain.last()@))
            } else {
                p + tagged(rule_faults(r, cur, ctx), field, chain.last()@)
            },
            None => p.push((field, chain.last()@)),
        }
    }
}

pub open spec fn failures_upto(
    data: Seq<(Seq<char>, Seq<char>)>,
    map: EnhancedConversionMap,
    ctx: Seq<(Seq<char>, Seq<char>)>,
) -> Seq<(Seq<char>, Seq<char>)>
    decreases data.len(),
{
    if data.len() == 0 {
        Seq::empty()
    } else {
        failures_upto(data.drop_last(), map, ctx) + chain_failures(
            data.last().0,
            field_chain(map, data.last().0),
            map.transformation_rules@,
            data.last().1,
            ctx,
        )
    }
}

impl EnhancedConversionService {
    /// Threads each field's value through the rules its definition names, in
    /// order, with the row's values as context; a rule that is missing or
    /// fails leaves the value as it was.
    pub fn apply_field_transformations(
        &self,
        field_data: &FieldMap,
        enhanced_map: &EnhancedConversionMap,
    ) -> (r: FieldMap)
        ensures
            pairs_view(r@) == transformed_fields(pairs_view(field_data@), *enhanced_map),
    {
        self.transform_fields(field_data, enhanced_map).fields
    }

    /// As [`Self::apply_field_transformations`], and reports each rule that
    /// was missing or failed, with its field.
    pub fn transform_fields(
        &self,
        field_data: &FieldMap,
        enhanced_map: &EnhancedConversionMap,
    ) -> (r: TransformReport)
        ensures
            pairs_view(r.fields@) == transformed_fields(pairs_view(field_data@), *enhanced_map),
            failures_view(r.failures@) == failures_upto(
                pairs_view(field_data@),
                *enhanced_map,
                pairs_view(field_data@),
            ),
    {
        let engine = TransformationEngine::new();
        let ghost ctx = pairs_view(field_data@);
        let mut out: FieldMap = Vec::new();
        let mut failures: Vec<RuleFailure> = Vec::new();
        let mut i: usize = 0;
        assert(ctx.subrange(0, 0) =~= Seq::<(Seq<char>, Seq<char>)>::empty());
        assert(failures_view(failures@) =~= Seq::<(Seq<char>, Seq<char>)>::empty());
        while i < field_data.len()
            invariant
                i <= field_data@.len(),
                ctx == pairs_view(field_data@),
                out@.len() == i,
                forall|j: int|
                    0 <= j < i ==> #[trigger] pairs_view(out@)[j] == transformed_fields(
                        ctx,
                        *enhanced_map,
                    )[j],
                failures_view(failures@) == failures_upto(ctx.subrange(0, i as int), *enhanced_map, ctx),
            decreases field_data.len() - i,
        {
            let name = &field_data[i].0;
            let mut cur = field_data[i].1.clone();
            let ghost chain = field_chain(*enhanced_map, name@);
            let ghost before = failures_view(failures@);
            assert(ctx[i as int] == (name@, field_data@[i as int].1@));
            proof {
                let pre = ctx.subrange(0, i + 1);
                assert(pre.drop_last() =~= ctx.subrange(0, i as int));
                assert(pre.last() == ctx[i as int]);
            }
            match find_definition(&enhanced_map.field_definitions, name.as_str()) {
                Some(def) => {
                    match &def.transformations {
                        Some(names) => {
                            let mut k: usize = 0;
                            assert(names@.subrange(0, 0) =~= Seq::<String>::empty());
                            assert(before =~= before + chain_failures(name@, names@.subrange(0, 0), enhanced_map.transformation_rules@, field_data@[i as int].1@, ctx));
                            while k < names.len()
                                invariant
                                    k <= names@.len(),
                                    chain == names@,
                                    ctx == pairs_view(field_data@),
                                    cur@ == run_chain(
                                        names@.subrange(0, k as int),
                                        enhanced_map.transformation_rules@,
                                        field_data@[i as int].1@,
                                        ctx,
                                    ),
                                    failures_view(failures@) == before + chain_failures(
                                        name@,
                                        names@.subrange(0, k as int),
                                        enhanced_map.transformation_rules@,
                                        field_data@[i as int].1@,
                                        ctx,
                                    ),
                                decreases names.len() - k,
                            {
                                assert(names@.subrange(0, k + 1).drop_last() =~= names@.subrange(
                                    0,
                                    k as int,
                                ));
                                assert(names@.subrange(0, k + 1).last() == names@[k as int]);
                                let ghost fv = failures_view(failures@);
                                match find_rule(&enhanced_map.transformation_rules, names[k].as_str()) {
                                    Some(rule) => {
                                        let (outcome, faults) = engine.apply_transformation_reporting(rule, cur.as_str(), field_data);
                                        match outcome {
                                            Ok(v) => {
                                                let ghost fl = faults_view(faults@);
                                                let mut q: usize = 0;
                                                while q < faults.len()
                                                    invariant
                                                        q <= faults@.len(),
                                                        k < names@.len(),
                                                        fl == faults_view(faults@),
                                                        failures_view(failures@) == fv + tagged(fl.subrange(0, q as int), name@, names@[k as int]@),
                                                    decreases faults.len() - q,
                                                {
                                                    let ghost old = failures_view(failures@);
                                                    failures.push(RuleFailure { field: name.clone(), rule: names[k].clone(), error: Some(faults[q].clone()) });
                                                    assert(failures_view(failures@) =~= old.push((name@, names@[k as int]@)));
                                                    assert(tagged(fl.subrange(0, q + 1), name@, names@[k as int]@) =~= tagged(fl.subrange(0, q as int), name@, names@[k as int]@).push((name@, names@[k as int]@)));
                                                    assert(fv + tagged(fl.subrange(0, q + 1), name@, names@[k as int]@) =~= (fv + tagged(fl.subrange(0, q as int), name@, names@[k as int]@)).push((name@, names@[k as int]@)));
                                                    q = q + 1;
                                                }
                                                assert(fl.subrange(0, fl.len() as int) =~= fl);
                                                cur = v;
                                            },
                                            Err(e) => {
                                                let f = RuleFailure { field: name.clone(), rule: names[k].clone(), error: Some(e) };
                                                failures.push(f);
                                                assert(failures_view(failures@) =~= fv.push((name@, names@[k as int]@)));
                                            },
                                        }
                                    },
                                    None => {
                                        let f = RuleFailure { field: name.clone(), rule: names[k].clone(), error: None };
                                        failures.push(f);
                                        assert(failures_view(failures@) =~= fv.push((name@, names@[k as int]@)));
                                    },
                                }
                                k = k + 1;
                            }
                            assert(names@.subrange(0, names@.len() as int) =~= names@);
                        },
                        None => {
                            assert(chain == Seq::<String>::empty());
                            assert(before =~= before + chain_failures(name@, chain, enhanced_map.transformation_rules@, field_data@[i as int].1@, ctx));
                        },
                    }
                },
                None => {
                    assert(chain == Seq::<String>::empty());
                    assert(before =~= before + chain_failures(name@, chain, enhanced_map.transformation_rules@, field_data@[i as int].1@, ctx));
                },
            }
            assert(cur@ == run_chain(chain, enhanced_map.transformation_rules@, ctx[i as int].1, ctx));
            let ghost old_out = out@;
            out.push((name.clone(), cur));
            assert(pairs_view(out@)[i as int] == (name@, cur@));
            assert(transformed_fields(ctx, *enhanced_map)[i as int] == (ctx[i as int].0, run_chain(chain, enhanced_map.transformation_rules@, ctx[i as int].1, ctx)));
            assert forall|j: int| 0 <= j < i + 1 implies #[trigger] pairs_view(out@)[j] == transformed_fields(ctx, *enhanced_map)[j] by {
                if j < i {
                    assert(pairs_view(out@)[j] == pairs_view(old_out)[j]);
                }
            }
            i = i + 1;
        }
        assert(pairs_view(out@) =~= transformed_fields(ctx, *enhanced_map));
        assert(ctx.subrange(0, ctx.len() as int) =~= ctx);
        TransformReport { fields: out, failures }
    }
}

/// Where each field's value is already what its rules make of it, applying
/// the rules changes nothing.
pub proof fn lemma_transformed_fixed_point(
    data: Seq<(Seq<char>, Seq<char>)>,
    map: EnhancedConversionMap,
)
    requires
        forall|i: int|
            0 <= i < data.len() ==> run_chain(
                field_chain(map, #[trigger] data[i].0),
                map.transformation_rules@,
                data[i].1,
                data,
            ) == data[i].1,
    ensures
        transformed_fields(data, map) == data,
{
    assert(transformed_fields(data, map) =~= data);
}

} // verus!

verus! {

pub open spec fn listed(v: Seq<char>, l: Seq<String>) -> bool {
    exists|k: int| 0 <= k < l.len() && #[trigger] l[k]@ == v
}

/// Error and warning counts of one value against its definition, given the
/// outcome of the pattern search.
pub open spec fn findings_with(d: FieldDefinition, v: Seq<char>, rx: Option<bool>) -> (nat, nat) {
    let required = if d.is_required && blank(v) {
        1nat
    } else {
        0nat
    };
    let short = match d.validation_rules.min_length {
        Some(n) => if utf8_len(v) < n {
            1nat
        } else {
            0nat
        },
        None => 0nat,
    };
    let long = match d.validation_rules.max_length {
        Some(n) => if utf8_len(v) > n {
            1nat
        } else {
            0nat
        },
        None => 0nat,
    };
    let pattern = match d.validation_rules.pattern {
        Some(_) => if rx == Some(false) {
            1nat
        } else {
            0nat
        },
        None => 0nat,
    };
    let warn = match d.validation_rules.allowed_values {
        Some(l) => if listed(v, l@) {
            0nat
        } else {
            1nat
        },
        None => 0nat,
    };
    (required + short + long + pattern, warn)
}

/// Findings of a value: a pattern that does not compile is passed over.
pub open spec fn findings(d: FieldDefinition, v: Seq<char>) -> (nat, nat) {
    findings_with(
        d,
        v,
        match d.validation_rules.pattern {
            Some(p) => regex_outcome(p@, v),
            None => None,
        },
    )
}

/// Findings of field `f` with value `v`: none for a field without definition.
pub open spec fn field_findings_of(map: EnhancedConversionMap, f: Seq<char>, v: Seq<char>) -> (
    nat,
    nat,
) {
    match def_of(map.field_definitions@, f) {
        Some(d) => findings(d, v),
        None => (0, 0),
    }
}

pub open spec fn total_errors(data: Seq<(Seq<char>, Seq<char>)>, map: EnhancedConversionMap) -> nat
    decreases data.len(),
{
    if data.len() == 0 {
        0
    } else {
        total_errors(data.drop_last(), map) + field_findings_of(map, data.last().0, data.last().1).0
    }
}

pub open spec fn total_warnings(data: Seq<(Seq<char>, Seq<char>)>, map: EnhancedConversionMap) -> nat
    decreases data.len(),
{
    if data.len() == 0 {
        0
    } else {
        total_warnings(data.drop_last(), map) + field_findings_of(map, data.last().0, data.last().1).1
    }
}

pub fn is_listed(v: &str, l: &Vec<String>) -> (r: bool)
    ensures
        r == listed(v@, l@),
{
    let mut k: usize = 0;
    while k < l.len()
        invariant
            k <= l@.len(),
            forall|j: int| 0 <= j < k ==> l@[j]@ != v@,
        decreases l.len() - k,
    {
        if str_eq(l[k].as_str(), v) {
            return true;
        }
        k = k + 1;
    }
    false
}

fn message_with(prefix: &str, tail: &str) -> (r: String)
    ensures
        r@ == prefix@ + tail@,
{
    let mut m: Vec<char> = Vec::new();
    push_str_chars(&mut m, prefix);
    push_str_chars(&mut m, tail);
    string_of(&m)
}

fn finding(field: &String, message: String, severity: ErrorSeverity) -> (r: ValidationError)
    ensures
        r.field@ == field@,
        r.severity == severity,
{
    ValidationError { field: field.clone(), message, severity }
}

/// `n` copies of a field name.
pub open spec fn repeat_field(f: Seq<char>, n: nat) -> Seq<Seq<char>> {
    Seq::new(n, |i: int| f)
}

/// The field of each error, in the order the errors are reported.
pub open spec fn error_fields(data: Seq<(Seq<char>, Seq<char>)>, map: EnhancedConversionMap) -> Seq<Seq<char>>
    decreases data.len(),
{
    if data.len() == 0 {
        Seq::empty()
    } else {
        error_fields(data.drop_last(), map) + repeat_field(
            data.last().0,
            field_findings_of(map, data.last().0, data.last().1).0,
        )
    }
}

/// The field of each warning, in the order the warnings are reported.
pub open spec fn warning_fields(data: Seq<(Seq<char>, Seq<char>)>, map: EnhancedConversionMap) -> Seq<Seq<char>>
    decreases data.len(),
{
    if data.len() == 0 {
        Seq::empty()
    } else {
        warning_fields(data.drop_last(), map) + repeat_field(
            data.last().0,
            field_findings_of(map, data.last().0, data.last().1).1,
        )
    }
}

/// "<prefix><n>".
fn bound_message(prefix: &str, n: usize) -> (r: String) {
    let mut v: Vec<char> = Vec::new();
    push_str_chars(&mut v, prefix);
    let d = crate::config::decimal_chars(n as u64);
    let mut i: usize = 0;
    while i < d.len()
        decreases d.len() - i,
    {
        v.push(d[i]);
        i = i + 1;
    }
    string_of(&v)
}

/// "Value '<v>' not in allowed values: <a>, <b>, ...".
fn allowed_message(value: &str, allowed: &Vec<String>) -> (r: String) {
    let mut v: Vec<char> = Vec::new();
    push_str_chars(&mut v, "Value '");
    push_str_chars(&mut v, value);
    push_str_chars(&mut v, "' not in allowed values: ");
    let listed = crate::config::join_strings(allowed, ", ");
    push_str_chars(&mut v, listed.as_str());
    string_of(&v)
}

impl EnhancedConversionService {
    /// Error and warning counts of one value, the pattern search's outcome
    /// given.
    pub fn field_findings(def: &FieldDefinition, value: &str, rx: Option<bool>) -> (r: (u32, u32))
        ensures
            r.0 as nat == findings_with(*def, value@, rx).0,
            r.1 as nat == findings_with(*def, value@, rx).1,
    {
        let len = byte_len(value);
        let mut errors: u32 = 0;
        let mut warnings: u32 = 0;
        if def.is_required && is_blank(value) {
            errors = errors + 1;
        }
        match def.validation_rules.min_length {
            Some(n) => {
                if len < n as u128 {
                    errors = errors + 1;
                }
            },
            None => {},
        }
        match def.validation_rules.max_length {
            Some(n) => {
                if len > n as u128 {
                    errors = errors + 1;
                }
            },
            None => {},
        }
        match &def.validation_rules.pattern {
            Some(_) => {
                match rx {
                    Some(false) => {
                        errors = errors + 1;
                    },
                    _ => {},
                }
            },
            None => {},
        }
        match &def.validation_rules.allowed_values {
            Some(l) => {
                if !is_listed(value, l) {
                    warnings = warnings + 1;
                }
            },
            None => {},
        }
        (errors, warnings)
    }

    /// Checks each field with a definition: required, length, pattern (errors)
    /// and allowed values (warnings); the result is valid when no field has
    /// an error.
    #[verifier::rlimit(100)]
    pub fn validate_field_values(&self, field_data: &FieldMap, enhanced_map: &EnhancedConversionMap) -> (r:
        ValidationResult)
        ensures
            r.field_summary@.len() == field_data@.len(),
            forall|i: int|
                0 <= i < field_data@.len() ==> {
                    let f = pairs_view(field_data@)[i];
                    let c = field_findings_of(*enhanced_map, f.0, f.1);
                    &&& (#[trigger] r.field_summary@[i]).0@ == f.0
                    &&& r.field_summary@[i].1.error_count as nat == c.0
                    &&& r.field_summary@[i].1.warning_count as nat == c.1
                    &&& r.field_summary@[i].1.is_valid == (c.0 == 0)
                },
            r.errors@.len() == total_errors(pairs_view(field_data@), *enhanced_map),
            r.warnings@.len() == total_warnings(pairs_view(field_data@), *enhanced_map),
            r.is_valid == (total_errors(pairs_view(field_data@), *enhanced_map) == 0),
            forall|k: int| 0 <= k < r.errors@.len() ==> (#[trigger] r.errors@[k]).severity == ErrorSeverity::Error,
            forall|k: int| 0 <= k < r.warnings@.len() ==> (#[trigger] r.warnings@[k]).severity == ErrorSeverity::Warning,
            finding_fields(r.errors@) == error_fields(pairs_view(field_data@), *enhanced_map),
            finding_fields(r.warnings@) == warning_fields(pairs_view(field_data@), *enhanced_map),
    {
        let ghost data = pairs_view(field_data@);
        let mut errors: Vec<ValidationError> = Vec::new();
        let mut warnings: Vec<ValidationError> = Vec::new();
        let mut summary: Vec<(String, FieldValidationSummary)> = Vec::new();
        let mut i: usize = 0;
        assert(data.subrange(0, 0) =~= Seq::<(Seq<char>, Seq<char>)>::empty());
        assert(finding_fields(errors@) =~= Seq::<Seq<char>>::empty());
        assert(finding_fields(warnings@) =~= Seq::<Seq<char>>::empty());
        while i < field_data.len()
            invariant
                i <= field_data@.len(),
                data == pairs_view(field_data@),
                summary@.len() == i,
                forall|j: int|
                    0 <= j < i ==> {
                        let f = data[j];
                        let c = field_findings_of(*enhanced_map, f.0, f.1);
                        &&& (#[trigger] summary@[j]).0@ == f.0
                        &&& summary@[j].1.error_count as nat == c.0
                        &&& summary@[j].1.warning_count as nat == c.1
                        &&& summary@[j].1.is_valid == (c.0 == 0)
                    },
                errors@.len() == total_errors(data.subrange(0, i as int), *enhanced_map),
                warnings@.len() == total_warnings(data.subrange(0, i as int), *enhanced_map),
                forall|k: int| 0 <= k < errors@.len() ==> (#[trigger] errors@[k]).severity == ErrorSeverity::Error,
                forall|k: int| 0 <= k < warnings@.len() ==> (#[trigger] warnings@[k]).severity == ErrorSeverity::Warning,
                finding_fields(errors@) == error_fields(data.subrange(0, i as int), *enhanced_map),
                finding_fields(warnings@) == warning_fields(data.subrange(0, i as int), *enhanced_map),
            decreases field_data.len() - i,
        {
            let name = &field_data[i].0;
            let value = &field_data[i].1;
            assert(data[i as int] == (name@, value@));
            proof {
                assert(data.subrange(0, i + 1).drop_last() =~= data.subrange(0, i as int));
                assert(data.subrange(0, i + 1).last() == data[i as int]);
            }
            let mut counts: (u32, u32) = (0, 0);
            let ghost eb = finding_fields(errors@);
            let ghost wb = finding_fields(warnings@);
            let ghost mut e: nat = 0;
            let ghost mut w: nat = 0;
            match find_definition(&enhanced_map.field_definitions, name.as_str()) {
                Some(def) => {
                    let rx = match &def.validation_rules.pattern {
                        Some(p) => regex_search(p.as_str(), value.as_str()),
                        None => None,
                    };
                    counts = Self::field_findings(def, value.as_str(), rx);
                    assert(finding_fields(errors@) =~= eb + repeat_field(name@, 0));
                    assert(finding_fields(warnings@) =~= wb + repeat_field(name@, 0));
                    if def.is_required && is_blank(value.as_str()) {
                                let ghost old = errors@;
                                errors.push(finding(name, owned("Required field cannot be empty"), ErrorSeverity::Error));
                                proof {
                                    lemma_finding_fields_push(old, errors@.last());
                                    assert(errors@ == old.push(errors@.last()));
                                    e = e + 1;
                                    assert(finding_fields(errors@) =~= eb + repeat_field(name@, e));
                                }
                            }
                    let len = byte_len(value.as_str());
                    match def.validation_rules.min_length {
                        Some(n) => {
                            if len < n as u128 {
                                let ghost old = errors@;
                                errors.push(finding(name, bound_message("Value too short, minimum length is ", n), ErrorSeverity::Error));
                                proof {
                                    lemma_finding_fields_push(old, errors@.last());
                                    assert(errors@ == old.push(errors@.last()));
                                    e = e + 1;
                                    assert(finding_fields(errors@) =~= eb + repeat_field(name@, e));
                                }
                            }
                        },
                        None => {},
                    }
                    match def.validation_rules.max_length {
                        Some(n) => {
                            if len > n as u128 {
                                let ghost old = errors@;
                                errors.push(finding(name, bound_message("Value too long, maximum length is ", n), ErrorSeverity::Error));
                                proof {
                                    lemma_finding_fields_push(old, errors@.last());
                                    assert(errors@ == old.push(errors@.last()));
                                    e = e + 1;
                                    assert(finding_fields(errors@) =~= eb + repeat_field(name@, e));
                                }
                            }
                        },
                        None => {},
                    }
                    match &def.validation_rules.pattern {
                        Some(p) => {
                            match rx {
                                Some(false) => {
                                let ghost old = errors@;
                                errors.push(finding(name, message_with("Value does not match required pattern: ", p.as_str()), ErrorSeverity::Error));
                                proof {
                                    lemma_finding_fields_push(old, errors@.last());
                                    assert(errors@ == old.push(errors@.last()));
                                    e = e + 1;
                                    assert(finding_fields(errors@) =~= eb + repeat_field(name@, e));
                                }
                            },
                                _ => {},
                            }
                        },
                        None => {},
                    }
                    match &def.validation_rules.allowed_values {
                        Some(l) => {
                            if !is_listed(value.as_str(), l) {
                                let ghost old = warnings@;
                                warnings.push(finding(name, allowed_message(value.as_str(), l), ErrorSeverity::Warning));
                                proof {
                                    lemma_finding_fields_push(old, warnings@.last());
                                    assert(warnings@ == old.push(warnings@.last()));
                                    w = w + 1;
                                    assert(finding_fields(warnings@) =~= wb + repeat_field(name@, w));
                                }
                            }
                        },
                        None => {},
                    }
                    assert(e == findings_with(*def, value@, rx).0);
                    assert(w == findings_with(*def, value@, rx).1);
                },
                None => {
                    assert(finding_fields(errors@) =~= eb + repeat_field(name@, 0));
                    assert(finding_fields(warnings@) =~= wb + repeat_field(name@, 0));
                },
            }
            summary.push((name.clone(), FieldValidationSummary {
                is_valid: counts.0 == 0,
                error_count: counts.0,
                warning_count: counts.1,
            }));
            i = i + 1;
        }
        assert(data.subrange(0, data.len() as int) =~= data);
        let is_valid = errors.len() == 0;
        ValidationResult { is_valid, errors, warnings, field_summary: summary }
    }
}

} // verus!

verus! {

pub proof fn lemma_flat_candidates_kinds(fields: Seq<(String, FieldDefinition)>)
    requires
        forall|i: int, j: int|
            0 <= i < fields.len() && 0 <= j < fields[i].1.xlsx_mappings@.len() ==> {
                let t = (#[trigger] fields[i].1.xlsx_mappings@[j]).mapping_type;
                t == MappingType::Exact || t == MappingType::Partial
            },
    ensures
        forall|k: int|
            0 <= k < flat_candidates(fields).len() ==> (#[trigger] flat_candidates(fields)[k]).mapping_type
                == MappingType::Exact || flat_candidates(fields)[k].mapping_type == MappingType::Partial,
    decreases fields.len(),
{
    if fields.len() > 0 {
        let pre = fields.drop_last();
        assert forall|i: int, j: int|
            0 <= i < pre.len() && 0 <= j < pre[i].1.xlsx_mappings@.len() implies {
                let t = (#[trigger] pre[i].1.xlsx_mappings@[j]).mapping_type;
                t == MappingType::Exact || t == MappingType::Partial
            } by {
            assert(pre[i] == fields[i]);
        }
        lemma_flat_candidates_kinds(pre);
        let n = fields.len() - 1;
        let a = flat_candidates(pre);
        assert forall|k: int| 0 <= k < flat_candidates(fields).len() implies (#[trigger] flat_candidates(fields)[k]).mapping_type
            == MappingType::Exact || flat_candidates(fields)[k].mapping_type == MappingType::Partial by {
            if k >= a.len() {
                let j = k - a.len();
                assert(fields[n].1.xlsx_mappings@[j] == fields.last().1.xlsx_mappings@[j]);
            }
        }
    }
}

pub proof fn lemma_synonym_candidates_exact(t: Seq<(Seq<char>, Seq<Seq<char>>)>)
    ensures
        forall|k: int|
            0 <= k < synonym_candidates(t).len() ==> (#[trigger] synonym_candidates(t)[k]).mapping_type
                == MappingType::Exact,
    decreases t.len(),
{
    if t.len() > 0 {
        lemma_synonym_candidates_exact(t.drop_last());
    }
}

/// Two headers with the same normal form resolve to the same field with the
/// same confidence against a map whose patterns are all exact or partial.
pub proof fn lemma_same_normal_form_same_field(
    h1: Seq<char>,
    h2: Seq<char>,
    fields: Seq<(String, FieldDefinition)>,
)
    requires
        norm(h1) == norm(h2),
        forall|i: int, j: int|
            0 <= i < fields.len() && 0 <= j < fields[i].1.xlsx_mappings@.len() ==> {
                let t = (#[trigger] fields[i].1.xlsx_mappings@[j]).mapping_type;
                t == MappingType::Exact || t == MappingType::Partial
            },
    ensures
        header_resolution(seq![h1], fields) == header_resolution(seq![h2], fields),
{
    lemma_flat_candidates_kinds(fields);
    lemma_synonym_candidates_exact(default_variations());
    lemma_equal_headers_resolve_alike(h1, h2, flat_candidates(fields));
    lemma_equal_headers_resolve_alike(h1, h2, synonym_candidates(default_variations()));
}

} // verus!

verus! {

/// Relies on `chrono::Utc::now` and `DateTime::to_rfc3339`: the current time
/// as RFC 3339 text. Nothing is stated of it: it depends on the clock.
#[verifier::external_body]
pub(crate) fn timestamp_now() -> (r: String) {
    chrono::Utc::now().to_rfc3339()
}

impl EnhancedConversionMap {
    /// An empty map of version 1.0.0 whose headers sit in row 2, stamped now.
    pub fn new() -> (r: EnhancedConversionMap)
        ensures
            r.version@ == "1.0.0"@,
            r.header_row == Some(2u32),
            r.field_definitions@.len() == 0,
            r.transformation_rules@.len() == 0,
            r.created_at is Some,
            r.updated_at is Some,
    {
        EnhancedConversionMap {
            version: owned("1.0.0"),
            header_row: Some(2),
            field_definitions: Vec::new(),
            transformation_rules: Vec::new(),
            created_at: Some(timestamp_now()),
            updated_at: Some(timestamp_now()),
        }
    }

    /// The definition of a field.
    pub fn get_field_definition(&self, field_name: &str) -> (r: Option<&FieldDefinition>)
        ensures
            match r {
                Some(d) => def_of(self.field_definitions@, field_name@) == Some(*d),
                None => def_of(self.field_definitions@, field_name@) is None,
            },
    {
        find_definition(&self.field_definitions, field_name)
    }

    /// The rule registered under a name.
    pub fn get_transformation_rule(&self, rule_name: &str) -> (r: Option<&TransformationRule>)
        ensures
            match r {
                Some(d) => rule_named(self.transformation_rules@, rule_name@) == Some(*d),
                None => rule_named(self.transformation_rules@, rule_name@) is None,
            },
    {
        find_rule(&self.transformation_rules, rule_name)
    }
}

} // verus!

verus! {

/// Fields whose display name is empty, in order.
pub open spec fn unnamed_fields(defs: Seq<(String, FieldDefinition)>) -> Seq<Seq<char>>
    decreases defs.len(),
{
    if defs.len() == 0 {
        Seq::empty()
    } else {
        let p = unnamed_fields(defs.drop_last());
        if defs.last().1.display_name@.len() == 0 {
            p.push(defs.last().0@)
        } else {
            p
        }
    }
}

/// Rules that are not well formed, in order.
pub open spec fn broken_rules(rules: Seq<(String, TransformationRule)>) -> Seq<Seq<char>>
    decreases rules.len(),
{
    if rules.len() == 0 {
        Seq::empty()
    } else {
        let p = broken_rules(rules.drop_last());
        if rule_check(rules.last().1) is Err {
            p.push(rules.last().0@)
        } else {
            p
        }
    }
}

/// One entry per rule name in `chain` that `rules` lacks.
pub open spec fn missing_rules(
    field: Seq<char>,
    chain: Seq<String>,
    rules: Seq<(String, TransformationRule)>,
) -> Seq<Seq<char>>
    decreases chain.len(),
{
    if chain.len() == 0 {
        Seq::empty()
    } else {
        let p = missing_rules(field, chain.drop_last(), rules);
        if rule_named(rules, chain.last()@) is None {
            p.push(field)
        } else {
            p
        }
    }
}

/// Warnings of one field: no header pattern, and each rule it names that
/// does not exist.
pub open spec fn field_warnings(
    name: Seq<char>,
    d: FieldDefinition,
    rules: Seq<(String, TransformationRule)>,
) -> Seq<Seq<char>> {
    (if d.xlsx_mappings@.len() == 0 {
        seq![name]
    } else {
        Seq::empty()
    }) + match d.transformations {
        Some(t) => missing_rules(name, t@, rules),
        None => Seq::empty(),
    }
}

pub open spec fn map_warnings(
    defs: Seq<(String, FieldDefinition)>,
    rules: Seq<(String, TransformationRule)>,
) -> Seq<Seq<char>>
    decreases defs.len(),
{
    if defs.len() == 0 {
        Seq::empty()
    } else {
        map_warnings(defs.drop_last(), rules) + field_warnings(defs.last().0@, defs.last().1, rules)
    }
}

pub open spec fn finding_fields(v: Seq<ValidationError>) -> Seq<Seq<char>> {
    v.map_values(|e: ValidationError| e.field@)
}

proof fn lemma_finding_fields_push(v: Seq<ValidationError>, e: ValidationError)
    ensures
        finding_fields(v.push(e)) == finding_fields(v).push(e.field@),
{
    assert(finding_fields(v.push(e)) =~= finding_fields(v).push(e.field@));
}

impl EnhancedConversionService {
    /// Checks a conversion map: a field without display name or a rule that is
    /// not well formed is an error; a field without header patterns, or one
    /// naming a rule the map lacks, is a warning.
    pub fn validate_enhanced_conversion_map(&self, enhanced_map: &EnhancedConversionMap) -> (r:
        ValidationResult)
        ensures
            finding_fields(r.errors@) == unnamed_fields(enhanced_map.field_definitions@)
                + broken_rules(enhanced_map.transformation_rules@),
            finding_fields(r.warnings@) == map_warnings(
                enhanced_map.field_definitions@,
                enhanced_map.transformation_rules@,
            ),
            r.is_valid == (r.errors@.len() == 0),
            forall|k: int| 0 <= k < r.errors@.len() ==> (#[trigger] r.errors@[k]).severity == ErrorSeverity::Error,
            forall|k: int| 0 <= k < r.warnings@.len() ==> (#[trigger] r.warnings@[k]).severity == ErrorSeverity::Warning,
            r.field_summary@.len() == enhanced_map.field_definitions@.len(),
            forall|k: int|
                0 <= k < r.field_summary@.len() ==> (#[trigger] r.field_summary@[k]).0@
                    == enhanced_map.field_definitions@[k].0@ && r.field_summary@[k].1.is_valid
                    && r.field_summary@[k].1.error_count == 0 && r.field_summary@[k].1.warning_count
                    == 0,
    {
        let engine = TransformationEngine::new();
        let defs = &enhanced_map.field_definitions;
        let rules = &enhanced_map.transformation_rules;
        let mut errors: Vec<ValidationError> = Vec::new();
        let mut warnings: Vec<ValidationError> = Vec::new();
        let mut summary: Vec<(String, FieldValidationSummary)> = Vec::new();
        let mut i: usize = 0;
        assert(defs@.subrange(0, 0) =~= Seq::<(String, FieldDefinition)>::empty());
        assert(finding_fields(errors@) =~= Seq::<Seq<char>>::empty());
        assert(finding_fields(warnings@) =~= Seq::<Seq<char>>::empty());
        while i < defs.len()
            invariant
                i <= defs@.len(),
                defs == enhanced_map.field_definitions,
                rules == enhanced_map.transformation_rules,
                finding_fields(errors@) == unnamed_fields(defs@.subrange(0, i as int)),
                finding_fields(warnings@) == map_warnings(defs@.subrange(0, i as int), rules@),
                summary@.len() == i,
                forall|k: int|
                    0 <= k < i ==> (#[trigger] summary@[k]).0@ == defs@[k].0@ && summary@[k].1.is_valid
                        && summary@[k].1.error_count == 0 && summary@[k].1.warning_count == 0,
                forall|k: int| 0 <= k < errors@.len() ==> (#[trigger] errors@[k]).severity == ErrorSeverity::Error,
                forall|k: int| 0 <= k < warnings@.len() ==> (#[trigger] warnings@[k]).severity == ErrorSeverity::Warning,
            decreases defs.len() - i,
        {
            let name = &defs[i].0;
            let def = &defs[i].1;
            proof {
                let pre = defs@.subrange(0, i + 1);
                assert(pre.drop_last() =~= defs@.subrange(0, i as int));
                assert(pre.last() == defs@[i as int]);
            }
            let ghost w0 = warnings@;
            if def.xlsx_mappings.len() == 0 {
                let e = finding(name, owned("Field has no Excel mappings defined"), ErrorSeverity::Warning);
                proof { lemma_finding_fields_push(warnings@, e); }
                warnings.push(e);
            }
            let ghost w1 = finding_fields(warnings@);
            assert(w1 == finding_fields(w0) + (if def.xlsx_mappings@.len() == 0 { seq![name@] } else { Seq::<Seq<char>>::empty() }));
            match &def.transformations {
                Some(chain) => {
                    let mut k: usize = 0;
                    assert(chain@.subrange(0, 0) =~= Seq::<String>::empty());
                    assert(w1 =~= w1 + missing_rules(name@, chain@.subrange(0, 0), rules@));
                    while k < chain.len()
                        invariant
                            k <= chain@.len(),
                            finding_fields(warnings@) == w1 + missing_rules(name@, chain@.subrange(0, k as int), rules@),
                            forall|j: int| 0 <= j < warnings@.len() ==> (#[trigger] warnings@[j]).severity == ErrorSeverity::Warning,
                        decreases chain.len() - k,
                    {
                        proof {
                            let pre = chain@.subrange(0, k + 1);
                            assert(pre.drop_last() =~= chain@.subrange(0, k as int));
                            assert(pre.last() == chain@[k as int]);
                        }
                        if find_rule(rules, chain[k].as_str()).is_none() {
                            let e = finding(name, message_with("Transformation rule not found: ", chain[k].as_str()), ErrorSeverity::Warning);
                            proof { lemma_finding_fields_push(warnings@, e); }
                            warnings.push(e);
                        }
                        k = k + 1;
                    }
                    assert(chain@.subrange(0, chain@.len() as int) =~= chain@);
                },
                None => {
                    assert(w1 =~= w1 + Seq::<Seq<char>>::empty());
                },
            }
            assert(finding_fields(warnings@) =~= map_warnings(defs@.subrange(0, i as int), rules@) + field_warnings(name@, *def, rules@));
            if def.display_name.unicode_len() == 0 {
                let e = finding(name, owned("Field display name cannot be empty"), ErrorSeverity::Error);
                proof { lemma_finding_fields_push(errors@, e); }
                errors.push(e);
            }
            summary.push((name.clone(), FieldValidationSummary { is_valid: true, error_count: 0, warning_count: 0 }));
            i = i + 1;
        }
        assert(defs@.subrange(0, defs@.len() as int) =~= defs@);
        let ghost e0 = finding_fields(errors@);
        let mut j: usize = 0;
        assert(rules@.subrange(0, 0) =~= Seq::<(String, TransformationRule)>::empty());
        assert(e0 =~= e0 + broken_rules(rules@.subrange(0, 0)));
        while j < rules.len()
            invariant
                j <= rules@.len(),
                rules == enhanced_map.transformation_rules,
                finding_fields(errors@) == e0 + broken_rules(rules@.subrange(0, j as int)),
                forall|k: int| 0 <= k < errors@.len() ==> (#[trigger] errors@[k]).severity == ErrorSeverity::Error,
            decreases rules.len() - j,
        {
            proof {
                let pre = rules@.subrange(0, j + 1);
                assert(pre.drop_last() =~= rules@.subrange(0, j as int));
                assert(pre.last() == rules@[j as int]);
            }
            match engine.validate_transformation_rule(&rules[j].1) {
                Ok(_) => {},
                Err(_) => {
                    let e = finding(&rules[j].0, owned("Invalid transformation rule"), ErrorSeverity::Error);
                    proof { lemma_finding_fields_push(errors@, e); }
                    errors.push(e);
                },
            }
            j = j + 1;
        }
        assert(rules@.subrange(0, rules@.len() as int) =~= rules@);
        let is_valid = errors.len() == 0;
        ValidationResult { is_valid, errors, warnings, field_summary: summary }
    }
}

} // verus!

verus! {

/// The order in which the provisioning table shows its known columns.
pub open spec fn preferred_columns() -> Seq<Seq<char>> {
    seq!["blueprint"@, "server_label"@, "switch_label"@, "switch_ifname"@, "server_ifname"@, "link_speed"@, "link_group_lag_mode"@, "link_group_ct_names"@, "link_group_ifname"@, "is_external"@, "server_tags"@, "switch_tags"@, "link_tags"@, "comment"@]
}

pub fn preferred_column_names() -> (r: Vec<String>)
    ensures
        cells_view(r@) == preferred_columns(),
{
    let mut v: Vec<String> = Vec::new();
    v.push(owned("blueprint"));
    v.push(owned("server_label"));
    v.push(owned("switch_label"));
    v.push(owned("switch_ifname"));
    v.push(owned("server_ifname"));
    v.push(owned("link_speed"));
    v.push(owned("link_group_lag_mode"));
    v.push(owned("link_group_ct_names"));
    v.push(owned("link_group_ifname"));
    v.push(owned("is_external"));
    v.push(owned("server_tags"));
    v.push(owned("switch_tags"));
    v.push(owned("link_tags"));
    v.push(owned("comment"));
    assert(cells_view(v@) =~= preferred_columns());
    v
}

/// How a data type is named in table metadata.
pub open spec fn data_type_label(t: DataType) -> Seq<char> {
    match t {
        DataType::Text => "String"@,
        DataType::Number => "Number"@,
        DataType::Boolean => "Boolean"@,
        DataType::Array => "Array"@,
        DataType::Json => "Json"@,
    }
}

pub fn data_type_name(t: DataType) -> (r: &'static str)
    ensures
        r@ == data_type_label(t),
{
    match t {
        DataType::Text => "String",
        DataType::Number => "Number",
        DataType::Boolean => "Boolean",
        DataType::Array => "Array",
        DataType::Json => "Json",
    }
}

/// The column a field definition gives: its UI settings, or width 120,
/// sortable, filterable and shown.
pub open spec fn column_matches(c: TableColumnDefinition, name: Seq<char>, d: FieldDefinition) -> bool {
    &&& c.field_name@ == name
    &&& c.display_name@ == d.display_name@
    &&& c.data_type@ == data_type_label(d.data_type)
    &&& c.width == match d.ui_config {
        Some(u) => u.column_width,
        None => 120u32,
    }
    &&& c.sortable == match d.ui_config {
        Some(u) => u.sortable,
        None => true,
    }
    &&& c.filterable == match d.ui_config {
        Some(u) => u.filterable,
        None => true,
    }
    &&& c.hidden == match d.ui_config {
        Some(u) => u.hidden,
        None => false,
    }
    &&& c.required == d.is_required
}

/// Preferred columns that the map defines, in preferred order.
pub open spec fn preferred_plan(names: Seq<Seq<char>>, defs: Seq<(String, FieldDefinition)>) -> Seq<
    (Seq<char>, FieldDefinition),
>
    decreases names.len(),
{
    if names.len() == 0 {
        Seq::empty()
    } else {
        let p = preferred_plan(names.drop_last(), defs);
        match def_of(defs, names.last()) {
            Some(d) => p.push((names.last(), d)),
            None => p,
        }
    }
}

/// The map's other fields, in map order.
pub open spec fn other_plan(defs: Seq<(String, FieldDefinition)>) -> Seq<(Seq<char>, FieldDefinition)>
    decreases defs.len(),
{
    if defs.len() == 0 {
        Seq::empty()
    } else {
        let p = other_plan(defs.drop_last());
        if preferred_columns().contains(defs.last().0@) {
            p
        } else {
            p.push((defs.last().0@, defs.last().1))
        }
    }
}

pub open spec fn table_plan(defs: Seq<(String, FieldDefinition)>) -> Seq<(Seq<char>, FieldDefinition)> {
    preferred_plan(preferred_columns(), defs) + other_plan(defs)
}

/// The definition made for a field known only by its display name.
pub open spec fn default_def(d: FieldDefinition, field_name: Seq<char>, display_name: Seq<char>) -> bool {
    &&& d.display_name@ == display_name
    &&& d.description@ == "Field definition for "@ + field_name
    &&& d.data_type == DataType::Text
    &&& !d.is_required && !d.is_key_field
    &&& d.xlsx_mappings@.len() == 1
    &&& d.xlsx_mappings@[0].pattern@ == display_name
    &&& d.xlsx_mappings@[0].mapping_type == MappingType::Exact
    &&& d.xlsx_mappings@[0].priority == 100
    &&& !d.xlsx_mappings@[0].case_sensitive
    &&& d.api_mappings@.len() == 0
    &&& d.ui_config matches Some(u) && u.column_width == 120 && u.sortable && u.filterable && !u.hidden
    &&& d.transformations is None
    &&& d.validation_rules.min_length is None
    &&& d.validation_rules.max_length is None
    &&& d.validation_rules.pattern is None
    &&& d.validation_rules.allowed_values is None
}

fn column_for(name: &String, d: &FieldDefinition) -> (r: TableColumnDefinition)
    ensures
        column_matches(r, name@, *d),
{
    let (width, sortable, filterable, hidden) = match &d.ui_config {
        Some(u) => (u.column_width, u.sortable, u.filterable, u.hidden),
        None => (120, true, true, false),
    };
    TableColumnDefinition {
        field_name: name.clone(),
        display_name: d.display_name.clone(),
        data_type: owned(data_type_name(d.data_type)),
        width,
        sortable,
        filterable,
        hidden,
        required: d.is_required,
    }
}

impl EnhancedConversionService {
    /// Table columns for the map's fields: the known columns in their
    /// preferred order, then the rest in map order.
    pub fn generate_table_columns(&self, enhanced_map: &EnhancedConversionMap) -> (r: Vec<
        TableColumnDefinition,
    >)
        ensures
            r@.len() == table_plan(enhanced_map.field_definitions@).len(),
            forall|k: int|
                0 <= k < r@.len() ==> column_matches(
                    #[trigger] r@[k],
                    table_plan(enhanced_map.field_definitions@)[k].0,
                    table_plan(enhanced_map.field_definitions@)[k].1,
                ),
    {
        let defs = &enhanced_map.field_definitions;
        let names = preferred_column_names();
        let ghost pn = cells_view(names@);
        let mut cols: Vec<TableColumnDefinition> = Vec::new();
        let mut i: usize = 0;
        assert(pn.subrange(0, 0) =~= Seq::<Seq<char>>::empty());
        while i < names.len()
            invariant
                i <= names@.len(),
                pn == cells_view(names@),
                pn == preferred_columns(),
                cols@.len() == preferred_plan(pn.subrange(0, i as int), defs@).len(),
                forall|k: int|
                    0 <= k < cols@.len() ==> column_matches(
                        #[trigger] cols@[k],
                        preferred_plan(pn.subrange(0, i as int), defs@)[k].0,
                        preferred_plan(pn.subrange(0, i as int), defs@)[k].1,
                    ),
            decreases names.len() - i,
        {
            proof {
                let pre = pn.subrange(0, i + 1);
                assert(pre.drop_last() =~= pn.subrange(0, i as int));
                assert(pre.last() == names@[i as int]@);
            }
            match find_definition(defs, names[i].as_str()) {
                Some(d) => {
                    cols.push(column_for(&names[i], d));
                },
                None => {},
            }
            i = i + 1;
        }
        assert(pn.subrange(0, pn.len() as int) =~= pn);
        let ghost first = preferred_plan(pn, defs@);
        let mut j: usize = 0;
        assert(defs@.subrange(0, 0) =~= Seq::<(String, FieldDefinition)>::empty());
        while j < defs.len()
            invariant
                j <= defs@.len(),
                defs == enhanced_map.field_definitions,
                pn == cells_view(names@),
                pn == preferred_columns(),
                first == preferred_plan(pn, defs@),
                cols@.len() == first.len() + other_plan(defs@.subrange(0, j as int)).len(),
                forall|k: int|
                    0 <= k < cols@.len() ==> column_matches(
                        #[trigger] cols@[k],
                        (first + other_plan(defs@.subrange(0, j as int)))[k].0,
                        (first + other_plan(defs@.subrange(0, j as int)))[k].1,
                    ),
            decreases defs.len() - j,
        {
            proof {
                let pre = defs@.subrange(0, j + 1);
                assert(pre.drop_last() =~= defs@.subrange(0, j as int));
                assert(pre.last() == defs@[j as int]);
            }
            let ghost before = first + other_plan(defs@.subrange(0, j as int));
            let ghost after = first + other_plan(defs@.subrange(0, j + 1));
            let known = crate::resolver::list_contains(&names, defs[j].0.as_str());
            if !known {
                cols.push(column_for(&defs[j].0, &defs[j].1));
                assert(after =~= before.push((defs@[j as int].0@, defs@[j as int].1)));
            } else {
                assert(after =~= before);
            }
            assert forall|k: int| 0 <= k < cols@.len() implies column_matches(
                #[trigger] cols@[k],
                after[k].0,
                after[k].1,
            ) by {
                if k < before.len() {
                    assert(after[k] == before[k]);
                }
            }
            j = j + 1;
        }
        assert(defs@.subrange(0, defs@.len() as int) =~= defs@);
        cols
    }

    /// A plain text field found under its display name by exact match.
    pub fn create_default_field_definition(&self, field_name: &str, display_name: &str) -> (r:
        Result<FieldDefinition, String>)
        ensures
            r matches Ok(d) && default_def(d, field_name@, display_name@),
    {
        let mut mappings: Vec<XlsxMapping> = Vec::new();
        mappings.push(XlsxMapping {
            pattern: owned(display_name),
            mapping_type: MappingType::Exact,
            priority: 100,
            case_sensitive: false,
            transform: None,
        });
        Ok(FieldDefinition {
            display_name: owned(display_name),
            description: message_with("Field definition for ", field_name),
            data_type: DataType::Text,
            is_required: false,
            is_key_field: false,
            xlsx_mappings: mappings,
            api_mappings: Vec::new(),
            validation_rules: ValidationRules {
                min_length: None,
                max_length: None,
                pattern: None,
                allowed_values: None,
                custom_validators: None,
            },
            ui_config: Some(UiConfig { column_width: 120, sortable: true, filterable: true, hidden: false }),
            transformations: None,
        })
    }
}

} // verus!

verus! {

impl EnhancedConversionService {
    /// A full map built from simple mappings: each field gets a default
    /// definition under the header that maps to it, the first such mapping
    /// winning.
    pub fn migrate_simple_to_enhanced_map(&self, simple_mappings: &FieldMap, header_row: Option<u32>) -> (r:
        Result<EnhancedConversionMap, String>)
        ensures
            r matches Ok(m) && {
                let plan = crate::compat::upgrade_plan(pairs_view(simple_mappings@));
                &&& m.version@ == "1.0.0"@
                &&& m.header_row == header_row
                &&& m.transformation_rules@.len() == 0
                &&& m.field_definitions@.len() == plan.len()
                &&& forall|k: int|
                    0 <= k < plan.len() ==> (#[trigger] m.field_definitions@[k]).0@ == plan[k].0
                        && default_def(m.field_definitions@[k].1, plan[k].0, plan[k].1)
            },
    {
        let ghost src = pairs_view(simple_mappings@);
        let mut defs: Vec<(String, FieldDefinition)> = Vec::new();
        let mut seen: FieldMap = Vec::new();
        let mut i: usize = 0;
        assert(src.subrange(0, 0) =~= Seq::<(Seq<char>, Seq<char>)>::empty());
        assert(pairs_view(seen@) =~= Seq::<(Seq<char>, Seq<char>)>::empty());
        while i < simple_mappings.len()
            invariant
                i <= simple_mappings@.len(),
                src == pairs_view(simple_mappings@),
                pairs_view(seen@) == crate::compat::upgrade_plan(src.subrange(0, i as int)),
                defs@.len() == seen@.len(),
                forall|k: int|
                    0 <= k < defs@.len() ==> (#[trigger] defs@[k]).0@ == pairs_view(seen@)[k].0
                        && default_def(defs@[k].1, pairs_view(seen@)[k].0, pairs_view(seen@)[k].1),
            decreases simple_mappings.len() - i,
        {
            let header = &simple_mappings[i].0;
            let field = &simple_mappings[i].1;
            proof {
                let pre = src.subrange(0, i + 1);
                assert(pre.drop_last() =~= src.subrange(0, i as int));
                assert(pre.last() == (header@, field@));
            }
            if crate::fields::find_key(&seen, field.as_str()).is_none() {
                let ghost old_seen = seen@;
                let ghost old_defs = defs@;
                match self.create_default_field_definition(field.as_str(), header.as_str()) {
                    Ok(d) => {
                        defs.push((field.clone(), d));
                        seen.push((field.clone(), header.clone()));
                        assert(pairs_view(seen@) =~= pairs_view(old_seen).push((field@, header@)));
                        assert forall|k: int| 0 <= k < defs@.len() implies (#[trigger] defs@[k]).0@ == pairs_view(seen@)[k].0
                            && default_def(defs@[k].1, pairs_view(seen@)[k].0, pairs_view(seen@)[k].1) by {
                            if k < old_defs.len() {
                                assert(defs@[k] == old_defs[k]);
                                assert(pairs_view(seen@)[k] == pairs_view(old_seen)[k]);
                            }
                        }
                    },
                    Err(_) => {},
                }
            }
            i = i + 1;
        }
        assert(src.subrange(0, src.len() as int) =~= src);
        Ok(EnhancedConversionMap {
            version: owned("1.0.0"),
            header_row,
            field_definitions: defs,
            transformation_rules: Vec::new(),
            created_at: Some(timestamp_now()),
            updated_at: Some(timestamp_now()),
        })
    }
}

} // verus!

verus! {

/// The candidates a header list is resolved against: the map's, or the
/// synonym table's where the map's match nothing.
pub open spec fn resolution_candidates(
    hs: Seq<Seq<char>>,
    fields: Seq<(String, FieldDefinition)>,
) -> Seq<CandidateSpec> {
    let r = resolve(hs, flat_candidates(fields));
    if exists|i: int| 0 <= i < r.len() && r[i] is Some {
        flat_candidates(fields)
    } else {
        synonym_candidates(default_variations())
    }
}

pub proof fn lemma_flat_candidates_member(fields: Seq<(String, FieldDefinition)>, i: int, j: int)
    requires
        0 <= i < fields.len(),
        0 <= j < fields[i].1.xlsx_mappings@.len(),
    ensures
        exists|k: int|
            0 <= k < flat_candidates(fields).len() && #[trigger] flat_candidates(fields)[k]
                == candidate_of(fields[i].0, fields[i].1.xlsx_mappings@[j]),
    decreases fields.len(),
{
    let pre = fields.drop_last();
    let a = flat_candidates(pre);
    if i < fields.len() - 1 {
        assert(pre[i] == fields[i]);
        lemma_flat_candidates_member(pre, i, j);
        let k = choose|k: int|
            0 <= k < a.len() && #[trigger] a[k] == candidate_of(pre[i].0, pre[i].1.xlsx_mappings@[j]);
        assert(flat_candidates(fields)[k] == a[k]);
    } else {
        assert(flat_candidates(fields)[a.len() + j] == candidate_of(
            fields.last().0,
            fields.last().1.xlsx_mappings@[j],
        ));
    }
}

/// A single header that some field's exact pattern matches after
/// normalisation is converted with confidence 1, through an exact pattern of
/// the same normal form: exact matching outranks every other kind.
pub proof fn lemma_exact_pattern_gives_full_confidence(
    h: Seq<char>,
    fields: Seq<(String, FieldDefinition)>,
    i: int,
    j: int,
)
    requires
        0 <= i < fields.len(),
        0 <= j < fields[i].1.xlsx_mappings@.len(),
        fields[i].1.xlsx_mappings@[j].mapping_type == MappingType::Exact,
        norm(fields[i].1.xlsx_mappings@[j].pattern@) == norm(h),
    ensures
        header_resolution(seq![h], fields)[0] matches Some(x) && x.1 == conf(1, 1) && exists|k: int|
            0 <= k < flat_candidates(fields).len() && flat_candidates(fields)[k].field == x.0
                && flat_candidates(fields)[k].mapping_type == MappingType::Exact && norm(
                flat_candidates(fields)[k].pattern,
            ) == norm(h),
{
    let c = flat_candidates(fields);
    lemma_flat_candidates_member(fields, i, j);
    let k = choose|k: int|
        0 <= k < c.len() && #[trigger] c[k] == candidate_of(fields[i].0, fields[i].1.xlsx_mappings@[j]);
    lemma_exact_header_resolves_fully(h, c, k);
    let r = resolve(seq![h], c);
    assert(r[0] is Some);
}

/// At header conversion, a field claimed by an exact match goes to no other
/// header.
pub proof fn lemma_conversion_locks_exact_fields(
    hs: Seq<Seq<char>>,
    fields: Seq<(String, FieldDefinition)>,
    i: int,
    j: int,
)
    requires
        0 <= i < hs.len(),
        0 <= j < hs.len(),
        i != j,
        exact_pass(hs, resolution_candidates(hs, fields)).0[i] is Some,
    ensures
        header_resolution(hs, fields)[i] matches Some(fi) && (header_resolution(hs, fields)[j] matches Some(fj)
            ==> fi.0 != fj.0),
{
    let rc = resolution_candidates(hs, fields);
    assert(header_resolution(hs, fields) == resolve(hs, rc));
    lemma_exact_match_locks_field(hs, rc, i, j);
}

} // verus!
