//! Moving between the simple conversion map (header to field) and the full
//! conversion map.

use vstd::prelude::*;
use crate::fields::{find_key, lookup, pairs_view, FieldMap};
use crate::merge::cells_view;
use crate::model::{
    ApiMapping, DataType, EnhancedConversionMap, FieldDefinition, MappingType, UiConfig,
    ValidationRules, XlsxMapping,
};
use crate::service::def_of;
use crate::simple_map::ConversionMap;
use crate::text::{
    chars_end_with, chars_eq, chars_of, contains_chars, contains_seq, ends_with, owned,
    push_str_chars, str_eq, string_of,
};

verus! {

/// Which kind of conversion map a document holds.
#[derive(Clone, Copy, Debug, PartialEq, Eq, Structural)]
pub enum MapFormat {
    Simple,
    Enhanced,
}

/// What a full map lacks or uses beyond what the simple form can express.
#[derive(Clone, Debug)]
pub struct CompatibilityReport {
    pub is_compatible: bool,
    pub missing_fields: Vec<String>,
    pub warnings: Vec<String>,
    pub suggestions: Vec<String>,
}

pub open spec fn starts_with(s: Seq<char>, p: Seq<char>) -> bool {
    p.len() <= s.len() && s.subrange(0, p.len() as int) == p
}

/// The data type a field's name suggests.
pub open spec fn inferred_type(f: Seq<char>) -> DataType {
    if contains_seq(f, "_count"@) || contains_seq(f, "_number"@) {
        DataType::Number
    } else if contains_seq(f, "is_"@) || ends_with(f, "_enabled"@) {
        DataType::Boolean
    } else if contains_seq(f, "_tags"@) || contains_seq(f, "_list"@) {
        DataType::Array
    } else if contains_seq(f, "_config"@) || contains_seq(f, "_metadata"@) {
        DataType::Json
    } else {
        DataType::Text
    }
}

/// The fields every link row needs.
pub open spec fn required_field(f: Seq<char>) -> bool {
    f == "blueprint"@ || f == "server_label"@ || f == "switch_label"@ || f == "switch_ifname"@
}

/// Fields whose value the controller reports under the same name.
pub open spec fn api_linked(f: Seq<char>) -> bool {
    starts_with(f, "server_"@) || starts_with(f, "switch_"@) || starts_with(f, "link_"@)
}

/// The definition migrated from mapping `header` to field `f`.
pub open spec fn migrated_def(d: FieldDefinition, header: Seq<char>, f: Seq<char>) -> bool {
    &&& d.display_name@ == header
    &&& d.description@ == "Field migrated from simple conversion map: "@ + header
    &&& d.data_type == inferred_type(f)
    &&& d.is_required == required_field(f)
    &&& d.is_key_field == required_field(f)
    &&& d.xlsx_mappings@.len() == 1
    &&& d.xlsx_mappings@[0].pattern@ == header
    &&& d.xlsx_mappings@[0].mapping_type == MappingType::Exact
    &&& d.xlsx_mappings@[0].priority == 100
    &&& !d.xlsx_mappings@[0].case_sensitive
    &&& d.xlsx_mappings@[0].transform is None
    &&& (if api_linked(f) {
        d.api_mappings@.len() == 1 && d.api_mappings@[0].primary_path@ == "$."@ + f
            && d.api_mappings@[0].fallback_paths@.len() == 0
            && d.api_mappings@[0].transformation is None
    } else {
        d.api_mappings@.len() == 0
    })
    &&& d.validation_rules.min_length is None
    &&& d.validation_rules.max_length == (if inferred_type(f) == DataType::Text {
        Some(255usize)
    } else {
        None
    })
    &&& d.validation_rules.pattern is None
    &&& d.validation_rules.allowed_values is None
    &&& d.validation_rules.custom_validators is None
    &&& d.ui_config == Some(UiConfig { column_width: 150, sortable: true, filterable: true, hidden: false })
    &&& d.transformations is None
}

fn chars_start_with(v: &Vec<char>, t: &str) -> (r: bool)
    ensures
        r == starts_with(v@, t@),
{
    let w = chars_of(t);
    if w.len() > v.len() {
        return false;
    }
    let p = crate::text::sub_chars(v, 0, w.len());
    let same = crate::text::chars_eq(&p, t);
    same
}

fn has(v: &Vec<char>, t: &str) -> (r: bool)
    ensures
        r == contains_seq(v@, t@),
{
    let w = chars_of(t);
    contains_chars(v, &w)
}

pub fn infer_data_type(field: &str) -> (r: DataType)
    ensures
        r == inferred_type(field@),
{
    let f = chars_of(field);
    if has(&f, "_count") || has(&f, "_number") {
        DataType::Number
    } else if has(&f, "is_") || chars_end_with(&f, "_enabled") {
        DataType::Boolean
    } else if has(&f, "_tags") || has(&f, "_list") {
        DataType::Array
    } else if has(&f, "_config") || has(&f, "_metadata") {
        DataType::Json
    } else {
        DataType::Text
    }
}

/// The full definition that a simple mapping from `excel_header` to
/// `internal_field` stands for.
pub fn create_field_definition_from_mapping(excel_header: &str, internal_field: &str) -> (r:
    FieldDefinition)
    ensures
        migrated_def(r, excel_header@, internal_field@),
{
    let data_type = infer_data_type(internal_field);
    let is_required = str_eq(internal_field, "blueprint") || str_eq(internal_field, "server_label")
        || str_eq(internal_field, "switch_label") || str_eq(internal_field, "switch_ifname");
    let mut xlsx_mappings: Vec<XlsxMapping> = Vec::new();
    xlsx_mappings.push(XlsxMapping {
        pattern: owned(excel_header),
        mapping_type: MappingType::Exact,
        priority: 100,
        case_sensitive: false,
        transform: None,
    });
    let f = chars_of(internal_field);
    let mut api_mappings: Vec<ApiMapping> = Vec::new();
    if chars_start_with(&f, "server_") || chars_start_with(&f, "switch_") || chars_start_with(&f, "link_") {
        let mut path: Vec<char> = Vec::new();
        push_str_chars(&mut path, "$.");
        push_str_chars(&mut path, internal_field);
        api_mappings.push(ApiMapping {
            primary_path: string_of(&path),
            fallback_paths: Vec::new(),
            transformation: None,
        });
    }
    let max_length: Option<usize> = match data_type {
        DataType::Text => Some(255),
        _ => None,
    };
    let mut description: Vec<char> = Vec::new();
    push_str_chars(&mut description, "Field migrated from simple conversion map: ");
    push_str_chars(&mut description, excel_header);
    FieldDefinition {
        display_name: owned(excel_header),
        description: string_of(&description),
        data_type,
        is_required,
        is_key_field: is_required,
        xlsx_mappings,
        api_mappings,
        validation_rules: ValidationRules {
            min_length: None,
            max_length,
            pattern: None,
            allowed_values: None,
            custom_validators: None,
        },
        ui_config: Some(UiConfig { column_width: 150, sortable: true, filterable: true, hidden: false }),
        transformations: None,
    }
}

/// Field and header for each simple mapping, the first mapping to a field
/// winning.
pub open spec fn upgrade_plan(m: Seq<(Seq<char>, Seq<char>)>) -> Seq<(Seq<char>, Seq<char>)>
    decreases m.len(),
{
    if m.len() == 0 {
        Seq::empty()
    } else {
        let p = upgrade_plan(m.drop_last());
        if lookup(p, m.last().1) is Some {
            p
        } else {
            p.push((m.last().1, m.last().0))
        }
    }
}

pub open spec fn def_names(defs: Seq<(String, FieldDefinition)>) -> Seq<(Seq<char>, Seq<char>)> {
    defs.map_values(|p: (String, FieldDefinition)| (p.0@, p.1.display_name@))
}

/// The header each field maps from in the simple form: its first exact
/// pattern, else its first pattern; fields without pattern are left out, and
/// the first field to claim a header keeps it.
pub open spec fn primary_pattern(d: FieldDefinition) -> Option<Seq<char>> {
    let ms = d.xlsx_mappings@;
    if exists|j: int| 0 <= j < ms.len() && ms[j].mapping_type == MappingType::Exact {
        Some(ms[first_exact(ms)].pattern@)
    } else if ms.len() > 0 {
        Some(ms[0].pattern@)
    } else {
        None
    }
}

/// Index of the first exact pattern.
pub open spec fn first_exact(ms: Seq<XlsxMapping>) -> int
    decreases ms.len(),
{
    if ms.len() == 0 {
        0
    } else if ms[0].mapping_type == MappingType::Exact {
        0
    } else {
        1 + first_exact(ms.drop_first())
    }
}

pub open spec fn downgrade_plan(defs: Seq<(String, FieldDefinition)>) -> Seq<(Seq<char>, Seq<char>)>
    decreases defs.len(),
{
    if defs.len() == 0 {
        Seq::empty()
    } else {
        let p = downgrade_plan(defs.drop_last());
        match primary_pattern(defs.last().1) {
            Some(h) => if lookup(p, h) is Some {
                p
            } else {
                p.push((h, defs.last().0@))
            },
            None => p,
        }
    }
}

pub proof fn lemma_first_exact(ms: Seq<XlsxMapping>, w: int)
    requires
        0 <= w < ms.len(),
        ms[w].mapping_type == MappingType::Exact,
    ensures
        0 <= first_exact(ms) <= w,
        ms[first_exact(ms)].mapping_type == MappingType::Exact,
        forall|j: int| 0 <= j < first_exact(ms) ==> ms[j].mapping_type != MappingType::Exact,
    decreases ms.len(),
{
    if ms[0].mapping_type != MappingType::Exact {
        let t = ms.drop_first();
        assert(t[w - 1] == ms[w]);
        lemma_first_exact(t, w - 1);
        assert forall|j: int| 0 <= j < first_exact(ms) implies ms[j].mapping_type != MappingType::Exact by {
            if j > 0 {
                assert(ms[j] == t[j - 1]);
            }
        }
    }
}

pub fn primary_pattern_of(d: &FieldDefinition) -> (r: Option<String>)
    ensures
        match r {
            Some(s) => primary_pattern(*d) == Some(s@),
            None => primary_pattern(*d) is None,
        },
{
    let ms = &d.xlsx_mappings;
    let mut j: usize = 0;
    while j < ms.len()
        invariant
            j <= ms@.len(),
            ms == d.xlsx_mappings,
            forall|k: int| 0 <= k < j ==> ms@[k].mapping_type != MappingType::Exact,
        decreases ms.len() - j,
    {
        if ms[j].mapping_type == MappingType::Exact {
            proof {
                lemma_first_exact(ms@, j as int);
            }
            return Some(ms[j].pattern.clone());
        }
        j = j + 1;
    }
    if ms.len() > 0 {
        Some(ms[0].pattern.clone())
    } else {
        None
    }
}

/// Converts between the two conversion-map forms and reports what the simple
/// form cannot carry.
pub struct CompatibilityService {}

impl CompatibilityService {
    pub fn new() -> (r: CompatibilityService) {
        CompatibilityService {  }
    }

    /// The format a document's text suggests by its keys, for a document that
    /// parses as neither form.
    pub fn detect_map_format_by_keys(json_content: &str) -> (r: Result<MapFormat, String>)
        ensures
            r matches Ok(f) ==> (f == MapFormat::Simple <==> (contains_seq(json_content@, "\"mappings\""@)
                && !contains_seq(json_content@, "\"field_definitions\""@))),
            r is Err <==> !(contains_seq(json_content@, "\"mappings\""@) || contains_seq(
                json_content@,
                "\"field_definitions\""@,
            ) || contains_seq(json_content@, "\"transformation_rules\""@)),
    {
        let v = chars_of(json_content);
        let mappings = has(&v, "\"mappings\"");
        let defs = has(&v, "\"field_definitions\"");
        if mappings && !defs {
            return Ok(MapFormat::Simple);
        }
        if defs || has(&v, "\"transformation_rules\"") {
            return Ok(MapFormat::Enhanced);
        }
        Err(owned("Unable to detect conversion map format"))
    }

    /// The full map equivalent to a simple one: one migrated definition per
    /// field, the first mapping to a field giving its header.
    pub fn upgrade_simple_to_enhanced(simple_map: &ConversionMap) -> (r: Result<
        EnhancedConversionMap,
        String,
    >)
        ensures
            r matches Ok(m) && {
                let plan = upgrade_plan(pairs_view(simple_map.mappings@));
                &&& m.version@ == "1.0.0"@
                &&& m.header_row == simple_map.header_row
                &&& m.transformation_rules@.len() == 0
                &&& m.field_definitions@.len() == plan.len()
                &&& forall|k: int|
                    0 <= k < plan.len() ==> (#[trigger] m.field_definitions@[k]).0@ == plan[k].0
                        && migrated_def(m.field_definitions@[k].1, plan[k].1, plan[k].0)
            },
    {
        let ghost src = pairs_view(simple_map.mappings@);
        let mut defs: Vec<(String, FieldDefinition)> = Vec::new();
        let mut seen: FieldMap = Vec::new();
        let mut i: usize = 0;
        assert(src.subrange(0, 0) =~= Seq::<(Seq<char>, Seq<char>)>::empty());
        assert(pairs_view(seen@) =~= Seq::<(Seq<char>, Seq<char>)>::empty());
        while i < simple_map.mappings.len()
            invariant
                i <= simple_map.mappings@.len(),
                src == pairs_view(simple_map.mappings@),
                pairs_view(seen@) == upgrade_plan(src.subrange(0, i as int)),
                defs@.len() == seen@.len(),
                forall|k: int|
                    0 <= k < defs@.len() ==> (#[trigger] defs@[k]).0@ == pairs_view(seen@)[k].0
                        && migrated_def(defs@[k].1, pairs_view(seen@)[k].1, pairs_view(seen@)[k].0),
            decreases simple_map.mappings.len() - i,
        {
            let header = &simple_map.mappings[i].0;
            let field = &simple_map.mappings[i].1;
            proof {
                let pre = src.subrange(0, i + 1);
                assert(pre.drop_last() =~= src.subrange(0, i as int));
                assert(pre.last() == (header@, field@));
            }
            if find_key(&seen, field.as_str()).is_none() {
                let ghost old_seen = seen@;
                let ghost old_defs = defs@;
                let d = create_field_definition_from_mapping(header.as_str(), field.as_str());
                defs.push((field.clone(), d));
                seen.push((field.clone(), header.clone()));
                assert(pairs_view(seen@) =~= pairs_view(old_seen).push((field@, header@)));
                assert forall|k: int| 0 <= k < defs@.len() implies (#[trigger] defs@[k]).0@ == pairs_view(seen@)[k].0
                    && migrated_def(defs@[k].1, pairs_view(seen@)[k].1, pairs_view(seen@)[k].0) by {
                    if k < old_defs.len() {
                        assert(defs@[k] == old_defs[k]);
                        assert(pairs_view(seen@)[k] == pairs_view(old_seen)[k]);
                    }
                }
            }
            i = i + 1;
        }
        assert(src.subrange(0, src.len() as int) =~= src);
        Ok(EnhancedConversionMap {
            version: owned("1.0.0"),
            header_row: simple_map.header_row,
            field_definitions: defs,
            transformation_rules: Vec::new(),
            created_at: Some(crate::service::timestamp_now()),
            updated_at: Some(crate::service::timestamp_now()),
        })
    }

    /// The simple map a full one reduces to: each field's primary header.
    pub fn downgrade_enhanced_to_simple(enhanced_map: &EnhancedConversionMap) -> (r: Result<
        ConversionMap,
        String,
    >)
        ensures
            r matches Ok(m) && m.wf() && m.header_row == enhanced_map.header_row && pairs_view(
                m.mappings@,
            ) == downgrade_plan(enhanced_map.field_definitions@) && m.field_variations is None,
    {
        let defs = &enhanced_map.field_definitions;
        let mut mappings: FieldMap = Vec::new();
        let mut i: usize = 0;
        assert(defs@.subrange(0, 0) =~= Seq::<(String, FieldDefinition)>::empty());
        assert(pairs_view(mappings@) =~= Seq::<(Seq<char>, Seq<char>)>::empty());
        while i < defs.len()
            invariant
                i <= defs@.len(),
                defs == enhanced_map.field_definitions,
                pairs_view(mappings@) == downgrade_plan(defs@.subrange(0, i as int)),
                crate::fields::keys_unique(pairs_view(mappings@)),
            decreases defs.len() - i,
        {
            proof {
                let pre = defs@.subrange(0, i + 1);
                assert(pre.drop_last() =~= defs@.subrange(0, i as int));
                assert(pre.last() == defs@[i as int]);
            }
            match primary_pattern_of(&defs[i].1) {
                Some(h) => {
                    if find_key(&mappings, h.as_str()).is_none() {
                        let ghost old = pairs_view(mappings@);
                        proof {
                            crate::simple_map::lemma_lookup_absent_keys(old, h@);
                        }
                        mappings.push((h, defs[i].0.clone()));
                        assert(pairs_view(mappings@) =~= old.push((h@, defs@[i as int].0@)));
                    }
                },
                None => {},
            }
            i = i + 1;
        }
        assert(defs@.subrange(0, defs@.len() as int) =~= defs@);
        Ok(ConversionMap { header_row: enhanced_map.header_row, mappings, field_variations: None })
    }
}

} // verus!

verus! {

/// Fields of the simple map that the full map lacks, with the header that
/// maps to each; the first mapping to a field wins.
pub open spec fn merge_plan(
    defs: Seq<(String, FieldDefinition)>,
    m: Seq<(Seq<char>, Seq<char>)>,
) -> Seq<(Seq<char>, Seq<char>)>
    decreases m.len(),
{
    if m.len() == 0 {
        Seq::empty()
    } else {
        let p = merge_plan(defs, m.drop_last());
        if def_of(defs, m.last().1) is Some || lookup(p, m.last().1) is Some {
            p
        } else {
            p.push((m.last().1, m.last().0))
        }
    }
}

/// Required fields the map does not define, in order.
pub open spec fn missing_required(defs: Seq<(String, FieldDefinition)>, req: Seq<Seq<char>>) -> Seq<
    Seq<char>,
>
    decreases req.len(),
{
    if req.len() == 0 {
        Seq::empty()
    } else {
        let p = missing_required(defs, req.drop_last());
        if def_of(defs, req.last()) is None {
            p.push(req.last())
        } else {
            p
        }
    }
}

pub open spec fn field_text(name: Seq<char>, tail: Seq<char>) -> Seq<char> {
    "Field '"@ + name + tail
}

/// Warnings for one field: rules it names, and pattern or custom
/// validators, which simple processing ignores.
pub open spec fn compat_warnings(name: Seq<char>, d: FieldDefinition) -> Seq<Seq<char>> {
    (if d.transformations matches Some(t) && t@.len() > 0 {
        seq![field_text(name, "' has transformations that may not be supported by simple processors"@)]
    } else {
        Seq::empty()
    }) + (if d.validation_rules.pattern is Some || d.validation_rules.custom_validators is Some {
        seq![field_text(name, "' has advanced validation rules that may not be enforced in simple mode"@)]
    } else {
        Seq::empty()
    })
}

/// Whether a field has patterns but none of them exact.
pub open spec fn needs_exact(d: FieldDefinition) -> bool {
    d.xlsx_mappings@.len() > 0 && !exists|j: int|
        0 <= j < d.xlsx_mappings@.len() && d.xlsx_mappings@[j].mapping_type == MappingType::Exact
}

pub open spec fn all_compat_warnings(defs: Seq<(String, FieldDefinition)>) -> Seq<Seq<char>>
    decreases defs.len(),
{
    if defs.len() == 0 {
        Seq::empty()
    } else {
        all_compat_warnings(defs.drop_last()) + compat_warnings(defs.last().0@, defs.last().1)
    }
}

pub open spec fn all_suggestions(defs: Seq<(String, FieldDefinition)>) -> Seq<Seq<char>>
    decreases defs.len(),
{
    if defs.len() == 0 {
        Seq::empty()
    } else {
        all_suggestions(defs.drop_last()) + if needs_exact(defs.last().1) {
            seq![field_text(defs.last().0@, "' should have at least one exact mapping for better compatibility"@)]
        } else {
            Seq::empty()
        }
    }
}

fn field_message(field: &str, tail: &str) -> (r: String)
    ensures
        r@ == field_text(field@, tail@),
{
    let mut v: Vec<char> = Vec::new();
    push_str_chars(&mut v, "Field '");
    push_str_chars(&mut v, field);
    push_str_chars(&mut v, tail);
    string_of(&v)
}

impl CompatibilityService {
    /// The full map with a migrated definition added for each field that only
    /// the simple map has.
    pub fn merge_maps(simple_map: &ConversionMap, enhanced_map: EnhancedConversionMap) -> (r: Result<
        EnhancedConversionMap,
        String,
    >)
        ensures
            r matches Ok(m) && {
                let old_defs = enhanced_map.field_definitions@;
                let plan = merge_plan(old_defs, pairs_view(simple_map.mappings@));
                &&& m.version == enhanced_map.version
                &&& m.header_row == enhanced_map.header_row
                &&& m.transformation_rules == enhanced_map.transformation_rules
                &&& m.field_definitions@.len() == old_defs.len() + plan.len()
                &&& m.field_definitions@.subrange(0, old_defs.len() as int) == old_defs
                &&& forall|k: int|
                    0 <= k < plan.len() ==> (#[trigger] m.field_definitions@[old_defs.len() + k]).0@
                        == plan[k].0 && migrated_def(
                        m.field_definitions@[old_defs.len() + k].1,
                        plan[k].1,
                        plan[k].0,
                    )
                &&& m.updated_at is Some
            },
    {
        let ghost src = pairs_view(simple_map.mappings@);
        let mut merged = enhanced_map;
        let ghost old_defs = merged.field_definitions@;
        let mut added: Vec<(String, FieldDefinition)> = Vec::new();
        let mut seen: FieldMap = Vec::new();
        let mut i: usize = 0;
        assert(src.subrange(0, 0) =~= Seq::<(Seq<char>, Seq<char>)>::empty());
        assert(pairs_view(seen@) =~= Seq::<(Seq<char>, Seq<char>)>::empty());
        while i < simple_map.mappings.len()
            invariant
                i <= simple_map.mappings@.len(),
                src == pairs_view(simple_map.mappings@),
                merged.field_definitions@ == old_defs,
                old_defs == enhanced_map.field_definitions@,
                pairs_view(seen@) == merge_plan(old_defs, src.subrange(0, i as int)),
                added@.len() == seen@.len(),
                forall|k: int|
                    0 <= k < added@.len() ==> (#[trigger] added@[k]).0@ == pairs_view(seen@)[k].0
                        && migrated_def(added@[k].1, pairs_view(seen@)[k].1, pairs_view(seen@)[k].0),
            decreases simple_map.mappings.len() - i,
        {
            let header = &simple_map.mappings[i].0;
            let field = &simple_map.mappings[i].1;
            proof {
                let pre = src.subrange(0, i + 1);
                assert(pre.drop_last() =~= src.subrange(0, i as int));
                assert(pre.last() == (header@, field@));
            }
            let known = crate::service::find_definition(&merged.field_definitions, field.as_str()).is_some();
            if !known && find_key(&seen, field.as_str()).is_none() {
                let ghost old_seen = seen@;
                let ghost old_added = added@;
                let d = create_field_definition_from_mapping(header.as_str(), field.as_str());
                added.push((field.clone(), d));
                seen.push((field.clone(), header.clone()));
                assert(pairs_view(seen@) =~= pairs_view(old_seen).push((field@, header@)));
                assert forall|k: int| 0 <= k < added@.len() implies (#[trigger] added@[k]).0@ == pairs_view(seen@)[k].0
                    && migrated_def(added@[k].1, pairs_view(seen@)[k].1, pairs_view(seen@)[k].0) by {
                    if k < old_added.len() {
                        assert(added@[k] == old_added[k]);
                        assert(pairs_view(seen@)[k] == pairs_view(old_seen)[k]);
                    }
                }
            }
            i = i + 1;
        }
        assert(src.subrange(0, src.len() as int) =~= src);
        let ghost added_v = added@;
        merged.field_definitions.append(&mut added);
        assert(merged.field_definitions@.subrange(0, old_defs.len() as int) =~= old_defs);
        assert forall|k: int| 0 <= k < added_v.len() implies merged.field_definitions@[old_defs.len() + k] == added_v[k] by {}
        merged.updated_at = Some(crate::service::timestamp_now());
        Ok(merged)
    }

    /// Whether the map defines every required field, with warnings for what
    /// simple processing would ignore and suggestions for fields without an
    /// exact pattern.
    pub fn validate_backward_compatibility(enhanced_map: &EnhancedConversionMap, required_fields: &Vec<String>) -> (r: Result<
        CompatibilityReport,
        String,
    >)
        ensures
            r matches Ok(rep) && {
                let missing = missing_required(enhanced_map.field_definitions@, cells_view(required_fields@));
                &&& cells_view(rep.missing_fields@) == missing
                &&& rep.is_compatible == (missing.len() == 0)
                &&& cells_view(rep.warnings@) == all_compat_warnings(enhanced_map.field_definitions@)
                &&& cells_view(rep.suggestions@) == all_suggestions(enhanced_map.field_definitions@)
            },
    {
        let defs = &enhanced_map.field_definitions;
        let ghost req = cells_view(required_fields@);
        let mut missing: Vec<String> = Vec::new();
        let mut i: usize = 0;
        assert(req.subrange(0, 0) =~= Seq::<Seq<char>>::empty());
        assert(cells_view(missing@) =~= Seq::<Seq<char>>::empty());
        while i < required_fields.len()
            invariant
                i <= required_fields@.len(),
                req == cells_view(required_fields@),
                defs == enhanced_map.field_definitions,
                cells_view(missing@) == missing_required(defs@, req.subrange(0, i as int)),
            decreases required_fields.len() - i,
        {
            proof {
                let pre = req.subrange(0, i + 1);
                assert(pre.drop_last() =~= req.subrange(0, i as int));
                assert(pre.last() == required_fields@[i as int]@);
            }
            if crate::service::find_definition(defs, required_fields[i].as_str()).is_none() {
                let ghost old = cells_view(missing@);
                missing.push(required_fields[i].clone());
                assert(cells_view(missing@) =~= old.push(required_fields@[i as int]@));
            }
            i = i + 1;
        }
        assert(req.subrange(0, req.len() as int) =~= req);
        let mut warnings: Vec<String> = Vec::new();
        let mut suggestions: Vec<String> = Vec::new();
        let mut j: usize = 0;
        assert(defs@.subrange(0, 0) =~= Seq::<(String, FieldDefinition)>::empty());
        assert(cells_view(warnings@) =~= Seq::<Seq<char>>::empty());
        assert(cells_view(suggestions@) =~= Seq::<Seq<char>>::empty());
        while j < defs.len()
            invariant
                j <= defs@.len(),
                defs == enhanced_map.field_definitions,
                cells_view(warnings@) == all_compat_warnings(defs@.subrange(0, j as int)),
                cells_view(suggestions@) == all_suggestions(defs@.subrange(0, j as int)),
            decreases defs.len() - j,
        {
            proof {
                let pre = defs@.subrange(0, j + 1);
                assert(pre.drop_last() =~= defs@.subrange(0, j as int));
                assert(pre.last() == defs@[j as int]);
            }
            let name = defs[j].0.as_str();
            let d = &defs[j].1;
            let ghost w0 = cells_view(warnings@);
            let ghost s0 = cells_view(suggestions@);
            match &d.transformations {
                Some(t) => {
                    if t.len() > 0 {
                        warnings.push(field_message(name, "' has transformations that may not be supported by simple processors"));
                        assert(cells_view(warnings@) =~= w0.push(field_text(name@, "' has transformations that may not be supported by simple processors"@)));
                    }
                },
                None => {},
            }
            let ghost w1 = cells_view(warnings@);
            assert(w1 == w0 + (if d.transformations matches Some(t) && t@.len() > 0 { seq![field_text(name@, "' has transformations that may not be supported by simple processors"@)] } else { Seq::<Seq<char>>::empty() }));
            if d.validation_rules.pattern.is_some() || d.validation_rules.custom_validators.is_some() {
                warnings.push(field_message(name, "' has advanced validation rules that may not be enforced in simple mode"));
                assert(cells_view(warnings@) =~= w1.push(field_text(name@, "' has advanced validation rules that may not be enforced in simple mode"@)));
            }
            assert(cells_view(warnings@) =~= w0 + compat_warnings(name@, *d));
            let ms = &d.xlsx_mappings;
            let mut any_exact = false;
            let mut k: usize = 0;
            while k < ms.len()
                invariant
                    k <= ms@.len(),
                    ms == d.xlsx_mappings,
                    any_exact <==> exists|x: int| 0 <= x < k && ms@[x].mapping_type == MappingType::Exact,
                decreases ms.len() - k,
            {
                if ms[k].mapping_type == MappingType::Exact {
                    any_exact = true;
                }
                k = k + 1;
            }
            if !any_exact && ms.len() > 0 {
                suggestions.push(field_message(name, "' should have at least one exact mapping for better compatibility"));
                assert(cells_view(suggestions@) =~= s0.push(field_text(name@, "' should have at least one exact mapping for better compatibility"@)));
            } else {
                assert(cells_view(suggestions@) =~= s0 + Seq::<Seq<char>>::empty());
            }
            j = j + 1;
        }
        assert(defs@.subrange(0, defs@.len() as int) =~= defs@);
        let is_compatible = missing.len() == 0;
        Ok(CompatibilityReport { is_compatible, missing_fields: missing, warnings, suggestions })
    }
}

} // verus!
