//! The header resolver: raw spreadsheet headers to canonical field names, each
//! with a confidence.

use vstd::prelude::*;
use crate::distance::{edit_distance, edit_distance_chars};
use crate::merge::cells_view;
use crate::model::{FieldDefinition, MappingType, XlsxMapping};
use crate::text::{
    chars_of, collapse_whitespace, collapse_ws, contains_chars, contains_seq, lower_of,
    str_eq, sub_chars, to_lowercase, trim_chars, trimmed,
};

verus! {

/// Whether `regex::Regex::new` accepts a pattern.
pub uninterp spec fn regex_compiles(pattern: Seq<char>) -> bool;

/// Whether a compiled pattern matches somewhere in a text.
pub uninterp spec fn regex_finds(pattern: Seq<char>, text: Seq<char>) -> bool;

/// Relies on `regex::Regex::new`, whose outcome depends on the pattern alone
/// (under the default size limit), and on `Regex::is_match`, true when the
/// compiled pattern matches anywhere in the text.
#[verifier::external_body]
pub(crate) fn regex_search(pattern: &str, text: &str) -> (r: Option<bool>)
    ensures
        r is Some <==> regex_compiles(pattern@),
        r matches Some(b) ==> b == regex_finds(pattern@, text@),
{
    match regex::Regex::new(pattern) {
        Ok(re) => Some(re.is_match(text)),
        Err(_) => None,
    }
}

/// What a regular-expression search reports: `None` for a pattern that does
/// not compile.
pub open spec fn regex_outcome(pattern: Seq<char>, text: Seq<char>) -> Option<bool> {
    if regex_compiles(pattern) {
        Some(regex_finds(pattern, text))
    } else {
        None
    }
}

/// Header text as compared: case-folded, whitespace runs made one space,
/// ends trimmed; `lowered` is the case-folded text.
pub open spec fn norm_folded(lowered: Seq<char>) -> Seq<char> {
    trimmed(collapse_ws(lowered))
}

pub open spec fn norm(h: Seq<char>) -> Seq<char> {
    norm_folded(lower_of(h))
}

/// The normal form of text that is already case-folded.
pub fn normalize_folded(lowered: &str) -> (r: Vec<char>)
    ensures
        r@ == norm_folded(lowered@),
{
    let c = collapse_whitespace(lowered);
    let (a, b) = trim_chars(&c);
    sub_chars(&c, a, b)
}

/// The normal form of a header.
pub fn normalize_header(h: &str) -> (r: Vec<char>)
    ensures
        r@ == norm(h@),
{
    let l = to_lowercase(h);
    normalize_folded(l.as_str())
}

/// A match confidence as the fraction `num / den`.
#[derive(Clone, Copy, Debug)]
pub struct Confidence {
    pub num: u64,
    pub den: u64,
}

pub open spec fn conf(num: u64, den: u64) -> Confidence {
    Confidence { num, den }
}

/// `a` is a strictly greater fraction than `b`.
pub open spec fn exceeds(a: Confidence, b: Confidence) -> bool {
    (a.num as int) * (b.den as int) > (b.num as int) * (a.den as int)
}

pub open spec fn same_level(a: Confidence, b: Confidence) -> bool {
    (a.num as int) * (b.den as int) == (b.num as int) * (a.den as int)
}

pub proof fn lemma_product_fits(x: u64, y: u64)
    ensures
        (x as int) * (y as int) <= u128::MAX,
{
    let a = x as int;
    let b = y as int;
    assert(a * b <= 0xffff_ffff_ffff_ffff * 0xffff_ffff_ffff_ffff) by (nonlinear_arith)
        requires
            0 <= a <= 0xffff_ffff_ffff_ffff,
            0 <= b <= 0xffff_ffff_ffff_ffff,
    ;
}

/// Compares two confidences: `1` when `a` is greater, `0` when equal, `-1`
/// when smaller.
pub fn compare_confidence(a: Confidence, b: Confidence) -> (r: i8)
    ensures
        r == 1 <==> exceeds(a, b),
        r == 0 <==> same_level(a, b),
        r == -1 <==> exceeds(b, a),
{
    proof {
        lemma_product_fits(a.num, b.den);
        lemma_product_fits(b.num, a.den);
    }
    let x = (a.num as u128) * (b.den as u128);
    let y = (b.num as u128) * (a.den as u128);
    if x > y {
        1
    } else if x == y {
        0
    } else {
        -1
    }
}

/// One header pattern of one field, as the resolver tries them.
#[derive(Clone, Debug)]
pub struct Candidate {
    pub field: String,
    pub pattern: String,
    pub mapping_type: MappingType,
    pub priority: u32,
}

/// The abstract form of a [`Candidate`].
pub struct CandidateSpec {
    pub field: Seq<char>,
    pub pattern: Seq<char>,
    pub mapping_type: MappingType,
    pub priority: u32,
}

impl Candidate {
    pub open spec fn view(&self) -> CandidateSpec {
        CandidateSpec {
            field: self.field@,
            pattern: self.pattern@,
            mapping_type: self.mapping_type,
            priority: self.priority,
        }
    }
}

pub open spec fn cands_view(cs: Seq<Candidate>) -> Seq<CandidateSpec> {
    cs.map_values(|c: Candidate| c@)
}

pub open spec fn candidate_of(field: String, m: XlsxMapping) -> CandidateSpec {
    CandidateSpec {
        field: field@,
        pattern: m.pattern@,
        mapping_type: m.mapping_type,
        priority: m.priority,
    }
}

/// Every header pattern of every field, fields in order, each field's
/// patterns in order.
pub open spec fn flat_candidates(fields: Seq<(String, FieldDefinition)>) -> Seq<CandidateSpec>
    decreases fields.len(),
{
    if fields.len() == 0 {
        Seq::empty()
    } else {
        flat_candidates(fields.drop_last()) + fields.last().1.xlsx_mappings@.map_values(
            |m: XlsxMapping| candidate_of(fields.last().0, m),
        )
    }
}

/// Fuzzy confidence: one minus the edit distance over the longer length.
pub open spec fn fuzzy_confidence(p: Seq<char>, h: Seq<char>) -> Confidence {
    let m = if p.len() >= h.len() {
        p.len()
    } else {
        h.len()
    };
    if m == 0 {
        conf(1, 1)
    } else {
        conf((m - edit_distance(p, h)) as u64, m as u64)
    }
}

/// Confidence of a candidate for a header, given the normal forms of header
/// and pattern and the outcome of the regular-expression search.
pub open spec fn score_with(
    c: CandidateSpec,
    h: Seq<char>,
    nh: Seq<char>,
    np: Seq<char>,
    rx: Option<bool>,
) -> Confidence {
    match c.mapping_type {
        MappingType::Exact => if np == nh {
            conf(1, 1)
        } else {
            conf(0, 1)
        },
        MappingType::Partial => if contains_seq(nh, np) || contains_seq(np, nh) {
            conf(8, 10)
        } else {
            conf(0, 1)
        },
        MappingType::Regex => if rx == Some(true) {
            conf(9, 10)
        } else {
            conf(0, 1)
        },
        MappingType::Fuzzy => fuzzy_confidence(c.pattern, h),
    }
}

pub open spec fn score(c: CandidateSpec, h: Seq<char>) -> Confidence {
    score_with(c, h, norm(h), norm(c.pattern), regex_outcome(c.pattern, h))
}

/// The confidence of one candidate for one header, the header's and the
/// pattern's normal forms and the regular-expression outcome given.
pub fn match_confidence(
    c: &Candidate,
    header: &str,
    norm_header: &Vec<char>,
    norm_pattern: &Vec<char>,
    rx: Option<bool>,
) -> (r: Confidence)
    ensures
        r == score_with(c@, header@, norm_header@, norm_pattern@, rx),
{
    match c.mapping_type {
        MappingType::Exact => {
            let same = norm_pattern.len() == norm_header.len() && contains_chars(
                norm_header,
                norm_pattern,
            );
            proof {
                if norm_pattern@.len() == norm_header@.len() && contains_seq(
                    norm_header@,
                    norm_pattern@,
                ) {
                    let i = choose|i: int|
                        0 <= i && i + norm_pattern@.len() <= norm_header@.len()
                            && #[trigger] norm_header@.subrange(i, i + norm_pattern@.len())
                            == norm_pattern@;
                    assert(i == 0);
                    assert(norm_header@.subrange(0, norm_header@.len() as int) =~= norm_header@);
                }
                if norm_pattern@ == norm_header@ {
                    assert(norm_header@.subrange(0int, 0int + norm_pattern@.len()) =~= norm_pattern@);
                }
            }
            if same {
                Confidence { num: 1, den: 1 }
            } else {
                Confidence { num: 0, den: 1 }
            }
        },
        MappingType::Partial => {
            if contains_chars(norm_header, norm_pattern) || contains_chars(norm_pattern, norm_header) {
                Confidence { num: 8, den: 10 }
            } else {
                Confidence { num: 0, den: 1 }
            }
        },
        MappingType::Regex => {
            match rx {
                Some(true) => Confidence { num: 9, den: 10 },
                _ => Confidence { num: 0, den: 1 },
            }
        },
        MappingType::Fuzzy => {
            let p = chars_of(c.pattern.as_str());
            let h = chars_of(header);
            let m = if p.len() >= h.len() {
                p.len()
            } else {
                h.len()
            };
            if m == 0 {
                Confidence { num: 1, den: 1 }
            } else {
                let d = edit_distance_chars(&p, &h);
                proof {
                    crate::distance::lemma_edit_distance_bound(p@, h@);
                }
                Confidence { num: (m - d) as u64, den: m as u64 }
            }
        },
    }
}

/// The confidence of one candidate for one header.
pub fn score_candidate(c: &Candidate, header: &str, norm_header: &Vec<char>, norm_pattern: &Vec<
    char,
>) -> (r: Confidence)
    requires
        norm_header@ == norm(header@),
        norm_pattern@ == norm(c.pattern@),
    ensures
        r == score(c@, header@),
{
    let rx = if c.mapping_type == MappingType::Regex {
        regex_search(c.pattern.as_str(), header)
    } else {
        None
    };
    proof {
        if c.mapping_type != MappingType::Regex {
            assert(score_with(c@, header@, norm_header@, norm_pattern@, rx) == score_with(
                c@,
                header@,
                norm_header@,
                norm_pattern@,
                regex_outcome(c.pattern@, header@),
            ));
        }
    }
    match_confidence(c, header, norm_header, norm_pattern, rx)
}

} // verus!

verus! {

/// Whether a candidate takes part in a pass: exact patterns in the first,
/// the others in the second, fields already claimed in neither.
pub open spec fn eligible(c: CandidateSpec, exact_pass: bool, claimed: Seq<Seq<char>>) -> bool {
    (c.mapping_type == MappingType::Exact) == exact_pass && !claimed.contains(c.field)
}

/// The positive confidences of the eligible candidates for header `h`.
pub open spec fn pass_scores(
    h: Seq<char>,
    cands: Seq<CandidateSpec>,
    exact_pass: bool,
    claimed: Seq<Seq<char>>,
) -> Seq<Option<Confidence>> {
    Seq::new(
        cands.len(),
        |k: int|
            if eligible(cands[k], exact_pass, claimed) && score(cands[k], h).num > 0 {
                Some(score(cands[k], h))
            } else {
                None
            },
    )
}

/// Whether candidate `k` with confidence `a` beats candidate `b` with
/// confidence `cb`: higher confidence, then higher priority.
pub open spec fn outranks(a: Confidence, pa: u32, cb: Confidence, pb: u32) -> bool {
    exceeds(a, cb) || (same_level(a, cb) && pa > pb)
}

/// The index of the best scored candidate; among equals the first one.
pub open spec fn pick(scores: Seq<Option<Confidence>>, cands: Seq<CandidateSpec>) -> Option<int>
    decreases scores.len(),
{
    if scores.len() == 0 {
        None
    } else {
        let k = scores.len() - 1;
        let prev = pick(scores.drop_last(), cands);
        match scores[k] {
            None => prev,
            Some(c) => match prev {
                None => Some(k),
                Some(p) => if outranks(c, cands[k].priority, scores[p]->0, cands[p].priority) {
                    Some(k)
                } else {
                    prev
                },
            },
        }
    }
}

pub proof fn lemma_pick_in_range(scores: Seq<Option<Confidence>>, cands: Seq<CandidateSpec>)
    ensures
        pick(scores, cands) matches Some(k) ==> 0 <= k < scores.len() && scores[k] is Some,
    decreases scores.len(),
{
    if scores.len() > 0 {
        lemma_pick_in_range(scores.drop_last(), cands);
    }
}

/// The first pass: headers in order, each taking the best exact pattern of a
/// field not yet claimed, and claiming that field.
pub open spec fn exact_pass(hs: Seq<Seq<char>>, cands: Seq<CandidateSpec>) -> (
    Seq<Option<int>>,
    Seq<Seq<char>>,
)
    decreases hs.len(),
{
    if hs.len() == 0 {
        (Seq::empty(), Seq::empty())
    } else {
        let prev = exact_pass(hs.drop_last(), cands);
        let p = pick(pass_scores(hs.last(), cands, true, prev.1), cands);
        (
            prev.0.push(p),
            match p {
                Some(k) => prev.1.push(cands[k].field),
                None => prev.1,
            },
        )
    }
}

/// The candidate chosen for header `i`: its exact match, else the best other
/// match among fields that no exact match claimed.
pub open spec fn chosen(hs: Seq<Seq<char>>, cands: Seq<CandidateSpec>, i: int) -> Option<int> {
    let ep = exact_pass(hs, cands);
    match ep.0[i] {
        Some(k) => Some(k),
        None => pick(pass_scores(hs[i], cands, false, ep.1), cands),
    }
}

/// Field name and confidence for each header, or `None` where nothing matched.
pub open spec fn resolve(hs: Seq<Seq<char>>, cands: Seq<CandidateSpec>) -> Seq<
    Option<(Seq<char>, Confidence)>,
> {
    Seq::new(
        hs.len(),
        |i: int|
            match chosen(hs, cands, i) {
                Some(k) => Some((cands[k].field, score(cands[k], hs[i]))),
                None => None,
            },
    )
}

/// The canonical field a header resolved to, with its confidence.
#[derive(Clone, Debug)]
pub struct HeaderMatch {
    pub field: String,
    pub confidence: Confidence,
}

pub open spec fn match_view(m: Option<HeaderMatch>) -> Option<(Seq<char>, Confidence)> {
    match m {
        Some(x) => Some((x.field@, x.confidence)),
        None => None,
    }
}

/// Whether `s` is among the strings of `v`.
pub fn list_contains(v: &Vec<String>, s: &str) -> (r: bool)
    ensures
        r == cells_view(v@).contains(s@),
{
    let ghost cv = cells_view(v@);
    let mut i: usize = 0;
    while i < v.len()
        invariant
            i <= v@.len(),
            cv == cells_view(v@),
            forall|j: int| 0 <= j < i ==> cv[j] != s@,
        decreases v.len() - i,
    {
        if str_eq(v[i].as_str(), s) {
            assert(cv[i as int] == s@);
            return true;
        }
        i = i + 1;
    }
    false
}

/// The normal forms of the candidates' patterns.
pub fn normalized_patterns(cands: &Vec<Candidate>) -> (r: Vec<Vec<char>>)
    ensures
        r@.len() == cands@.len(),
        forall|k: int| 0 <= k < cands@.len() ==> #[trigger] r@[k]@ == norm(cands@[k].pattern@),
{
    let mut r: Vec<Vec<char>> = Vec::new();
    let mut i: usize = 0;
    while i < cands.len()
        invariant
            i <= cands@.len(),
            r@.len() == i,
            forall|k: int| 0 <= k < i ==> #[trigger] r@[k]@ == norm(cands@[k].pattern@),
        decreases cands.len() - i,
    {
        r.push(normalize_header(cands[i].pattern.as_str()));
        i = i + 1;
    }
    r
}

/// The scores of one pass for one header.
pub fn header_scores(
    header: &str,
    norm_header: &Vec<char>,
    cands: &Vec<Candidate>,
    norm_patterns: &Vec<Vec<char>>,
    exact_pass: bool,
    claimed: &Vec<String>,
) -> (r: Vec<Option<Confidence>>)
    requires
        norm_header@ == norm(header@),
        norm_patterns@.len() == cands@.len(),
        forall|k: int|
            0 <= k < cands@.len() ==> #[trigger] norm_patterns@[k]@ == norm(cands@[k].pattern@),
    ensures
        r@ == pass_scores(header@, cands_view(cands@), exact_pass, cells_view(claimed@)),
{
    let mut r: Vec<Option<Confidence>> = Vec::new();
    let mut k: usize = 0;
    while k < cands.len()
        invariant
            k <= cands@.len(),
            norm_header@ == norm(header@),
            norm_patterns@.len() == cands@.len(),
            forall|j: int|
                0 <= j < cands@.len() ==> #[trigger] norm_patterns@[j]@ == norm(
                    cands@[j].pattern@,
                ),
            r@.len() == k,
            forall|j: int|
                0 <= j < k ==> #[trigger] r@[j] == pass_scores(
                    header@,
                    cands_view(cands@),
                    exact_pass,
                    cells_view(claimed@),
                )[j],
        decreases cands.len() - k,
    {
        let c = &cands[k];
        let is_exact = c.mapping_type == MappingType::Exact;
        if is_exact == exact_pass && !list_contains(claimed, c.field.as_str()) {
            let s = score_candidate(c, header, norm_header, &norm_patterns[k]);
            if s.num > 0 {
                r.push(Some(s));
            } else {
                r.push(None);
            }
        } else {
            r.push(None);
        }
        k = k + 1;
    }
    assert(r@ =~= pass_scores(header@, cands_view(cands@), exact_pass, cells_view(claimed@)));
    r
}

/// The best of the scored candidates; among equals the first.
pub fn pick_best(scores: &Vec<Option<Confidence>>, cands: &Vec<Candidate>) -> (r: Option<usize>)
    requires
        scores@.len() == cands@.len(),
    ensures
        match r {
            Some(k) => pick(scores@, cands_view(cands@)) == Some(k as int),
            None => pick(scores@, cands_view(cands@)) is None,
        },
{
    let mut best: Option<usize> = None;
    let mut k: usize = 0;
    assert(scores@.subrange(0, 0) =~= Seq::<Option<Confidence>>::empty());
    while k < scores.len()
        invariant
            k <= scores@.len() == cands@.len(),
            match best {
                Some(b) => pick(scores@.subrange(0, k as int), cands_view(cands@)) == Some(b as int),
                None => pick(scores@.subrange(0, k as int), cands_view(cands@)) is None,
            },
        decreases scores.len() - k,
    {
        proof {
            lemma_pick_in_range(scores@.subrange(0, k as int), cands_view(cands@));
            assert(scores@.subrange(0, k + 1).drop_last() =~= scores@.subrange(0, k as int));
        }
        match scores[k] {
            None => {},
            Some(c) => {
                match best {
                    None => {
                        best = Some(k);
                    },
                    Some(b) => {
                        assert(scores@.subrange(0, k as int)[b as int] == scores@[b as int]);
                        let cb = scores[b].unwrap();
                        let cmp = compare_confidence(c, cb);
                        if cmp == 1 || (cmp == 0 && cands[k].priority > cands[b].priority) {
                            best = Some(k);
                        }
                    },
                }
            },
        }
        k = k + 1;
    }
    assert(scores@.subrange(0, scores@.len() as int) =~= scores@);
    best
}

} // verus!

verus! {

pub open spec fn picks_view(p: Seq<Option<usize>>) -> Seq<Option<int>> {
    p.map_values(
        |o: Option<usize>|
            match o {
                Some(k) => Some(k as int),
                None => None,
            },
    )
}

/// Resolves each header against the candidates in two passes: exact matches
/// first, each claiming its field, then the best partial, regular-expression
/// or fuzzy match among the fields left unclaimed.
pub fn resolve_headers(headers: &Vec<String>, cands: &Vec<Candidate>) -> (r: Vec<
    Option<HeaderMatch>,
>)
    ensures
        r@.len() == headers@.len(),
        forall|i: int|
            0 <= i < headers@.len() ==> match_view(#[trigger] r@[i]) == resolve(
                cells_view(headers@),
                cands_view(cands@),
            )[i],
{
    let ghost hs = cells_view(headers@);
    let nps = normalized_patterns(cands);
    let mut nhs: Vec<Vec<char>> = Vec::new();
    let mut i: usize = 0;
    while i < headers.len()
        invariant
            i <= headers@.len(),
            hs == cells_view(headers@),
            nhs@.len() == i,
            forall|j: int| 0 <= j < i ==> #[trigger] nhs@[j]@ == norm(hs[j]),
        decreases headers.len() - i,
    {
        nhs.push(normalize_header(headers[i].as_str()));
        i = i + 1;
    }
    let mut picks: Vec<Option<usize>> = Vec::new();
    let mut claimed: Vec<String> = Vec::new();
    let mut i: usize = 0;
    assert(hs.subrange(0, 0) =~= Seq::<Seq<char>>::empty());
    assert(picks_view(picks@) =~= Seq::<Option<int>>::empty());
    assert(cells_view(claimed@) =~= Seq::<Seq<char>>::empty());
    while i < headers.len()
        invariant
            i <= headers@.len(),
            hs == cells_view(headers@),
            nhs@.len() == headers@.len(),
            forall|j: int| 0 <= j < headers@.len() ==> #[trigger] nhs@[j]@ == norm(hs[j]),
            nps@.len() == cands@.len(),
            forall|k: int|
                0 <= k < cands@.len() ==> #[trigger] nps@[k]@ == norm(cands@[k].pattern@),
            exact_pass(hs.subrange(0, i as int), cands_view(cands@)).0 == picks_view(picks@),
            exact_pass(hs.subrange(0, i as int), cands_view(cands@)).1 == cells_view(claimed@),
            forall|j: int| 0 <= j < i ==> (#[trigger] picks@[j] matches Some(k) ==> k < cands@.len()),
            picks@.len() == i,
        decreases headers.len() - i,
    {
        let ghost pre = hs.subrange(0, i as int);
        let scores = header_scores(headers[i].as_str(), &nhs[i], cands, &nps, true, &claimed);
        let p = pick_best(&scores, cands);
        proof {
            assert(hs.subrange(0, i + 1).drop_last() =~= pre);
            assert(hs.subrange(0, i + 1).last() == hs[i as int]);
            lemma_pick_in_range(scores@, cands_view(cands@));
        }
        picks.push(p);
        match p {
            Some(k) => {
                claimed.push(cands[k].field.clone());
            },
            None => {},
        }
        i = i + 1;
        assert(picks_view(picks@) =~= exact_pass(hs.subrange(0, i as int), cands_view(cands@)).0);
        assert(cells_view(claimed@) =~= exact_pass(hs.subrange(0, i as int), cands_view(cands@)).1);
    }
    assert(hs.subrange(0, headers@.len() as int) =~= hs);
    let mut out: Vec<Option<HeaderMatch>> = Vec::new();
    let mut i: usize = 0;
    while i < headers.len()
        invariant
            i <= headers@.len(),
            hs == cells_view(headers@),
            nhs@.len() == headers@.len(),
            forall|j: int| 0 <= j < headers@.len() ==> #[trigger] nhs@[j]@ == norm(hs[j]),
            nps@.len() == cands@.len(),
            forall|k: int|
                0 <= k < cands@.len() ==> #[trigger] nps@[k]@ == norm(cands@[k].pattern@),
            exact_pass(hs, cands_view(cands@)).0 == picks_view(picks@),
            exact_pass(hs, cands_view(cands@)).1 == cells_view(claimed@),
            picks@.len() == headers@.len(),
            forall|j: int|
                0 <= j < headers@.len() ==> (#[trigger] picks@[j] matches Some(k) ==> k
                    < cands@.len()),
            out@.len() == i,
            forall|j: int| 0 <= j < i ==> match_view(#[trigger] out@[j]) == resolve(hs, cands_view(cands@))[j],
        decreases headers.len() - i,
    {
        assert(picks_view(picks@)[i as int] == exact_pass(hs, cands_view(cands@)).0[i as int]);
        match picks[i] {
            Some(k) => {
                let s = score_candidate(&cands[k], headers[i].as_str(), &nhs[i], &nps[k]);
                out.push(Some(HeaderMatch { field: cands[k].field.clone(), confidence: s }));
            },
            None => {
                let scores = header_scores(headers[i].as_str(), &nhs[i], cands, &nps, false, &claimed);
                let p = pick_best(&scores, cands);
                proof {
                    lemma_pick_in_range(scores@, cands_view(cands@));
                }
                match p {
                    Some(k) => {
                        let s = scores[k].unwrap();
                        out.push(Some(HeaderMatch { field: cands[k].field.clone(), confidence: s }));
                    },
                    None => {
                        out.push(None);
                    },
                }
            },
        }
        i = i + 1;
    }
    out
}

} // verus!

verus! {

/// Headers with the same normal form resolve alike, when every pattern is
/// exact or partial (regular-expression and fuzzy patterns read the raw text).
pub proof fn lemma_equal_headers_resolve_alike(
    h1: Seq<char>,
    h2: Seq<char>,
    cands: Seq<CandidateSpec>,
)
    requires
        norm(h1) == norm(h2),
        forall|k: int|
            0 <= k < cands.len() ==> (#[trigger] cands[k]).mapping_type == MappingType::Exact
                || cands[k].mapping_type == MappingType::Partial,
    ensures
        resolve(seq![h1], cands) == resolve(seq![h2], cands),
{
    assert forall|k: int| 0 <= k < cands.len() implies score(#[trigger] cands[k], h1) == score(
        cands[k],
        h2,
    ) by {}
    assert forall|e: bool, cl: Seq<Seq<char>>|
        pass_scores(h1, cands, e, cl) == #[trigger] pass_scores(h2, cands, e, cl) by {
        assert(pass_scores(h1, cands, e, cl) =~= pass_scores(h2, cands, e, cl));
    }
    let s1 = seq![h1];
    let s2 = seq![h2];
    assert(s1.drop_last() =~= Seq::<Seq<char>>::empty());
    assert(s2.drop_last() =~= Seq::<Seq<char>>::empty());
    assert(exact_pass(s1, cands) == exact_pass(s2, cands));
    assert(chosen(s1, cands, 0) == chosen(s2, cands, 0));
    lemma_exact_pass_claims(s1, cands);
    let ep = exact_pass(s1, cands);
    lemma_pick_in_range(pass_scores(h1, cands, false, ep.1), cands);
    assert(s1[0] == h1 && s2[0] == h2);
    assert(resolve(s1, cands) =~= resolve(s2, cands));
}

/// An exact match always scores 1; partial (0.8) and regular-expression (0.9)
/// matches score below it, and no fuzzy match scores above it.
pub proof fn lemma_exact_confidence_is_highest(c: CandidateSpec, h: Seq<char>)
    requires
        c.pattern.len() <= u64::MAX,
        h.len() <= u64::MAX,
    ensures
        c.mapping_type == MappingType::Exact && score(c, h).num > 0 ==> score(c, h) == conf(1, 1),
        (c.mapping_type == MappingType::Partial || c.mapping_type == MappingType::Regex)
            ==> exceeds(conf(1, 1), score(c, h)),
        !exceeds(score(c, h), conf(1, 1)),
{
    if c.mapping_type == MappingType::Fuzzy {
        crate::distance::lemma_edit_distance_bound(c.pattern, h);
    }
}

pub proof fn lemma_exact_pass_claims(hs: Seq<Seq<char>>, cands: Seq<CandidateSpec>)
    ensures
        exact_pass(hs, cands).0.len() == hs.len(),
        forall|i: int|
            0 <= i < hs.len() ==> (#[trigger] exact_pass(hs, cands).0[i] matches Some(k) ==> 0
                <= k < cands.len() && exact_pass(hs, cands).1.contains(cands[k].field)),
        forall|i: int, j: int|
            0 <= i < j < hs.len() ==> (#[trigger] exact_pass(hs, cands).0[i] matches Some(ki) ==> (
            #[trigger] exact_pass(hs, cands).0[j] matches Some(kj) ==> cands[ki].field
                != cands[kj].field)),
    decreases hs.len(),
{
    if hs.len() > 0 {
        let prev = exact_pass(hs.drop_last(), cands);
        lemma_exact_pass_claims(hs.drop_last(), cands);
        let scores = pass_scores(hs.last(), cands, true, prev.1);
        let p = pick(scores, cands);
        lemma_pick_in_range(scores, cands);
        let ep = exact_pass(hs, cands);
        let n = hs.len() - 1;
        assert forall|i: int|
            0 <= i < hs.len() implies (#[trigger] ep.0[i] matches Some(k) ==> 0 <= k < cands.len()
            && ep.1.contains(cands[k].field)) by {
            if i < n {
                if let Some(k) = ep.0[i] {
                    assert(prev.0[i] == ep.0[i]);
                    assert(prev.1.contains(cands[k].field));
                    if let Some(kp) = p {
                        let x = choose|x: int| 0 <= x < prev.1.len() && prev.1[x] == cands[k].field;
                        assert(ep.1[x] == cands[k].field);
                    }
                }
            } else {
                if let Some(k) = p {
                    assert(ep.1[prev.1.len() as int] == cands[k].field);
                }
            }
        }
        assert forall|i: int, j: int|
            0 <= i < j < hs.len() implies (#[trigger] ep.0[i] matches Some(ki) ==> (
            #[trigger] ep.0[j] matches Some(kj) ==> cands[ki].field != cands[kj].field)) by {
            if let Some(ki) = ep.0[i] {
                if let Some(kj) = ep.0[j] {
                    assert(prev.0[i] == ep.0[i]);
                    if j < n {
                        assert(prev.0[j] == ep.0[j]);
                    } else {
                        assert(prev.1.contains(cands[ki].field));
                        assert(scores[kj] is Some);
                        assert(!prev.1.contains(cands[kj].field));
                    }
                }
            }
        }
    }
}

/// A field claimed by an exact match in the first pass goes to no other
/// header: the exact pass locks it against weaker matches.
pub proof fn lemma_exact_match_locks_field(hs: Seq<Seq<char>>, cands: Seq<CandidateSpec>, i: int, j: int)
    requires
        0 <= i < hs.len(),
        0 <= j < hs.len(),
        i != j,
        exact_pass(hs, cands).0[i] is Some,
    ensures
        resolve(hs, cands)[i] matches Some(fi) && (resolve(hs, cands)[j] matches Some(fj)
            ==> fi.0 != fj.0),
{
    lemma_exact_pass_claims(hs, cands);
    let ep = exact_pass(hs, cands);
    let ki = ep.0[i]->0;
    if let Some(kj) = chosen(hs, cands, j) {
        if ep.0[j] is None {
            let scores = pass_scores(hs[j], cands, false, ep.1);
            lemma_pick_in_range(scores, cands);
            assert(scores[kj] is Some);
            assert(!ep.1.contains(cands[kj].field));
        } else if i < j {
            assert(ep.0[j] == Some(kj));
        } else {
            assert(ep.0[j] == Some(kj));
        }
    }
}

} // verus!

verus! {

pub proof fn lemma_pick_some(scores: Seq<Option<Confidence>>, cands: Seq<CandidateSpec>, k: int)
    requires
        0 <= k < scores.len(),
        scores[k] is Some,
    ensures
        pick(scores, cands) is Some,
    decreases scores.len(),
{
    if k < scores.len() - 1 {
        lemma_pick_some(scores.drop_last(), cands, k);
    }
}

/// A header alone, with an exact pattern of its normal form among the
/// candidates, resolves with confidence 1 to a field through such a pattern.
pub proof fn lemma_exact_header_resolves_fully(h: Seq<char>, cands: Seq<CandidateSpec>, k: int)
    requires
        0 <= k < cands.len(),
        cands[k].mapping_type == MappingType::Exact,
        norm(cands[k].pattern) == norm(h),
    ensures
        exact_pass(seq![h], cands).0[0] matches Some(j) && 0 <= j < cands.len()
            && cands[j].mapping_type == MappingType::Exact && norm(cands[j].pattern) == norm(h)
            && resolve(seq![h], cands)[0] == Some((cands[j].field, conf(1, 1))),
{
    let hs = seq![h];
    assert(hs.drop_last() =~= Seq::<Seq<char>>::empty());
    assert(hs.last() == h);
    let scores = pass_scores(h, cands, true, Seq::empty());
    assert(scores[k] is Some);
    lemma_pick_some(scores, cands, k);
    lemma_pick_in_range(scores, cands);
    let j = pick(scores, cands)->0;
    assert(scores[j] is Some);
    let e = Seq::<Seq<char>>::empty();
    assert(exact_pass(hs.drop_last(), cands) == exact_pass(e, cands));
    let prev = exact_pass(hs.drop_last(), cands);
    assert(prev.0.len() == 0 && prev.1 == Seq::<Seq<char>>::empty());
    assert(exact_pass(hs, cands).0 == prev.0.push(pick(pass_scores(hs.last(), cands, true, prev.1), cands)));
    assert(exact_pass(hs, cands).0[0] == Some(j));
    assert(chosen(hs, cands, 0) == Some(j));
}

} // verus!
