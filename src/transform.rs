//! The transformation engine: a small interpreter over value maps, templates,
//! named built-in functions and pipelines, each gated by conditions.

use vstd::prelude::*;
use crate::builtins::{
    canon_digits_string, lead_number, lag_of, prefix_for, run_end, speed_from, speed_of, u32_text_digits,
    interface_name_of, is_port_text, digits_u32, digits_only, lead_integer, lemma_run_len_bound,
    CharClass, is_u32_text, unsigned_digits, canon_digits,
};
use crate::fields::{first_folded, lookup_folded, find_key, get_or_empty, lookup, pairs_view, value_or_empty, FieldMap};
use crate::merge::cells_view;
use crate::model::{Condition, TransformationLogic, TransformationRule, TransformationStep};
use crate::text::{byte_len, utf8_len, 
    chars_end_with, chars_eq, chars_of, lower_chars, lower_of, owned, push_str_chars,
    replace_all, replace_chars, str_eq, string_of, to_lowercase, to_uppercase, trim, trimmed,
    trimmed_chars, upper_of,
};

verus! {

/// Interprets transformation rules; its function registry is the closed set of
/// built-ins.
pub struct TransformationEngine {}

impl TransformationEngine {
    pub fn new() -> (r: TransformationEngine) {
        TransformationEngine {  }
    }

    /// Canonical `<integer><G|M>` bandwidth token.
    pub fn normalize_speed_value(speed: &str) -> (r: String)
        ensures
            r@ == speed_of(speed@),
    {
        let t = trim(speed);
        let c = to_uppercase(t.as_str());
        Self::normalize_speed_folded(speed, c.as_str())
    }

    /// Bandwidth normalisation of `speed`, given `folded`, its trimmed text
    /// upper-cased.
    pub fn normalize_speed_folded(speed: &str, folded: &str) -> (r: String)
        ensures
            r@ == speed_from(speed@, folded@),
    {
        let v = chars_of(speed);
        if v.len() == 0 {
            return owned(speed);
        }
        let c = chars_of(folded);
        assert(c@.subrange(0, c@.len() as int) =~= c@);
        let num = lead_number(&c);
        let gb = chars_end_with(&c, "GBPS") || chars_end_with(&c, "GB");
        let mb = chars_end_with(&c, "MBPS") || chars_end_with(&c, "MB");
        if (gb || mb) && num {
            let e = run_end(&c, 0, &CharClass::Digit);
            let mut d = canon_digits_string(&c, 0, e);
            if gb {
                d.push('G');
            } else {
                d.push('M');
            }
            return string_of(&d);
        }
        match u32_text_digits(&c) {
            Some(d) => {
                let mut d = d;
                d.push('G');
                return string_of(&d);
            },
            None => {},
        }
        if chars_end_with(&c, "G") || chars_end_with(&c, "M") {
            string_of(&c)
        } else {
            owned(speed)
        }
    }

    /// LAG answer in canonical form: `lacp_active`, `none` or `static`.
    pub fn convert_lag_mode_value(input: &str) -> (r: String)
        ensures
            r@ == lag_of(input@),
    {
        let v = chars_of(input);
        if v.len() == 0 {
            return owned(input);
        }
        let t0 = trimmed_chars(input);
        let t = lower_chars(&t0);
        if chars_eq(&t, "yes") || chars_eq(&t, "y") || chars_eq(&t, "true") || chars_eq(&t, "1")
            || chars_eq(&t, "lacp") {
            owned("lacp_active")
        } else if chars_eq(&t, "no") || chars_eq(&t, "n") || chars_eq(&t, "false") || chars_eq(
            &t,
            "0",
        ) {
            owned("none")
        } else if chars_eq(&t, "lacp_active") || chars_eq(&t, "static") || chars_eq(&t, "none") {
            string_of(&t)
        } else {
            owned(input)
        }
    }

    /// Whether the input is a port number.
    pub fn is_numeric_port(input: &str) -> (r: bool)
        ensures
            r == is_port_text(input@),
    {
        let t = trimmed_chars(input);
        u32_text_digits(&t).is_some()
    }

    /// Interface-type token for a bandwidth text.
    pub fn determine_interface_prefix(speed: &str) -> (r: &'static str)
        ensures
            r@ == prefix_for(speed_of(speed@)),
    {
        let ns = Self::normalize_speed_value(speed);
        let n = chars_of(ns.as_str());
        if chars_eq(&n, "1000M") {
            return "ge";
        } else if chars_eq(&n, "10000M") {
            return "xe";
        } else if chars_eq(&n, "25000M") || chars_eq(&n, "40000M") || chars_eq(&n, "100000M") {
            return "et";
        }
        assert(n@.subrange(0, n@.len() as int) =~= n@);
        let a = run_end(&n, 0, &CharClass::Digit);
        proof {
            lemma_run_len_bound(n@, CharClass::Digit);
            let d = lead_integer(n@);
            assert forall|i: int| 0 <= i < d.len() implies crate::text::is_digit(#[trigger] d[i]) by {
                assert(d[i] == n@[i]);
            }
        }
        if a == 0 || !chars_end_with(&n, "G") {
            return "ge";
        }
        match digits_u32(&n, 0, a) {
            None => "ge",
            Some(x) => {
                if x == 10 {
                    "xe"
                } else if x > 10 {
                    "et"
                } else {
                    "ge"
                }
            },
        }
    }

    /// `<prefix>-0/0/<port>` for a port number, the bandwidth read from the
    /// `link_speed` entry of the context; any other input unchanged.
    pub fn generate_interface_name(input: &str, context: &FieldMap) -> (r: Result<String, String>)
        ensures
            r matches Ok(s) && s@ == (if is_port_text(input@) {
                interface_name_of(input@, value_or_empty(pairs_view(context@), "link_speed"@))
            } else {
                input@
            }),
    {
        let t = trimmed_chars(input);
        match u32_text_digits(&t) {
            None => Ok(owned(input)),
            Some(port) => {
                let speed = get_or_empty(context, "link_speed");
                let prefix = Self::determine_interface_prefix(speed.as_str());
                let mut out: Vec<char> = Vec::new();
                push_str_chars(&mut out, prefix);
                push_str_chars(&mut out, "-0/0/");
                let ghost before = out@;
                let mut i: usize = 0;
                while i < port.len()
                    invariant
                        i <= port@.len(),
                        out@ == before + port@.subrange(0, i as int),
                    decreases port.len() - i,
                {
                    out.push(port[i]);
                    i = i + 1;
                    assert(out@ =~= before + port@.subrange(0, i as int));
                }
                assert(port@.subrange(0, port@.len() as int) =~= port@);
                Ok(string_of(&out))
            },
        }
    }
}

} // verus!

verus! {

/// The built-in functions a rule can name.
#[derive(Clone, Copy, Debug, PartialEq, Eq, Structural)]
pub enum BuiltinFunction {
    TrimWhitespace,
    ToUppercase,
    ToLowercase,
    NormalizeSpeed,
    GenerateInterfaceName,
    LagModeConversion,
}

pub open spec fn builtin_named(n: Seq<char>) -> Option<BuiltinFunction> {
    if n == "trim_whitespace"@ {
        Some(BuiltinFunction::TrimWhitespace)
    } else if n == "to_uppercase"@ {
        Some(BuiltinFunction::ToUppercase)
    } else if n == "to_lowercase"@ {
        Some(BuiltinFunction::ToLowercase)
    } else if n == "normalize_speed"@ {
        Some(BuiltinFunction::NormalizeSpeed)
    } else if n == "generate_interface_name"@ {
        Some(BuiltinFunction::GenerateInterfaceName)
    } else if n == "lag_mode_conversion"@ {
        Some(BuiltinFunction::LagModeConversion)
    } else {
        None
    }
}

/// What a built-in makes of an input, the field values given as context.
pub open spec fn builtin_result(
    f: BuiltinFunction,
    input: Seq<char>,
    ctx: Seq<(Seq<char>, Seq<char>)>,
) -> Seq<char> {
    match f {
        BuiltinFunction::TrimWhitespace => trimmed(input),
        BuiltinFunction::ToUppercase => upper_of(input),
        BuiltinFunction::ToLowercase => lower_of(input),
        BuiltinFunction::NormalizeSpeed => speed_of(input),
        BuiltinFunction::GenerateInterfaceName => if is_port_text(input) {
            interface_name_of(input, value_or_empty(ctx, "link_speed"@))
        } else {
            input
        },
        BuiltinFunction::LagModeConversion => lag_of(input),
    }
}

impl TransformationEngine {
    /// The function names offered for rules in the map editor.
    pub fn available_transformations() -> (r: Vec<String>)
        ensures
            r@.map_values(|s: String| s@) == seq![
                "generate_interface_name"@,
                "normalize_speed"@,
                "trim_whitespace"@,
                "to_uppercase"@,
                "to_lowercase"@,
            ],
    {
        let mut r: Vec<String> = Vec::new();
        r.push(owned("generate_interface_name"));
        r.push(owned("normalize_speed"));
        r.push(owned("trim_whitespace"));
        r.push(owned("to_uppercase"));
        r.push(owned("to_lowercase"));
        assert(r@.map_values(|s: String| s@) =~= seq![
            "generate_interface_name"@,
            "normalize_speed"@,
            "trim_whitespace"@,
            "to_uppercase"@,
            "to_lowercase"@,
        ]);
        r
    }
}

impl BuiltinFunction {
    /// The built-in registered under a name.
    pub fn from_name(name: &str) -> (r: Option<BuiltinFunction>)
        ensures
            r == builtin_named(name@),
    {
        if str_eq(name, "trim_whitespace") {
            Some(BuiltinFunction::TrimWhitespace)
        } else if str_eq(name, "to_uppercase") {
            Some(BuiltinFunction::ToUppercase)
        } else if str_eq(name, "to_lowercase") {
            Some(BuiltinFunction::ToLowercase)
        } else if str_eq(name, "normalize_speed") {
            Some(BuiltinFunction::NormalizeSpeed)
        } else if str_eq(name, "generate_interface_name") {
            Some(BuiltinFunction::GenerateInterfaceName)
        } else if str_eq(name, "lag_mode_conversion") {
            Some(BuiltinFunction::LagModeConversion)
        } else {
            None
        }
    }

    /// Applies the built-in.
    pub fn apply(&self, input: &str, context: &FieldMap) -> (r: String)
        ensures
            r@ == builtin_result(*self, input@, pairs_view(context@)),
    {
        match self {
            BuiltinFunction::TrimWhitespace => trim(input),
            BuiltinFunction::ToUppercase => to_uppercase(input),
            BuiltinFunction::ToLowercase => to_lowercase(input),
            BuiltinFunction::NormalizeSpeed => TransformationEngine::normalize_speed_value(input),
            BuiltinFunction::GenerateInterfaceName => {
                match TransformationEngine::generate_interface_name(input, context) {
                    Ok(s) => s,
                    Err(_) => owned(input),
                }
            },
            BuiltinFunction::LagModeConversion => TransformationEngine::convert_lag_mode_value(
                input,
            ),
        }
    }
}

/// Why a rule could not be applied.
#[derive(Clone, Debug)]
pub enum TransformError {
    UnknownFunction { name: String },
    MissingParameter { step_type: String, parameter: String },
    UnknownStepType { step_type: String },
    EmptyLogic { kind: String },
}

/// The abstract form of a [`TransformError`].
pub enum Fault {
    UnknownFunction(Seq<char>),
    MissingParameter(Seq<char>, Seq<char>),
    UnknownStepType(Seq<char>),
    EmptyLogic(Seq<char>),
}

impl TransformError {
    pub open spec fn view(&self) -> Fault {
        match self {
            TransformError::UnknownFunction { name } => Fault::UnknownFunction(name@),
            TransformError::MissingParameter { step_type, parameter } => Fault::MissingParameter(
                step_type@,
                parameter@,
            ),
            TransformError::UnknownStepType { step_type } => Fault::UnknownStepType(step_type@),
            TransformError::EmptyLogic { kind } => Fault::EmptyLogic(kind@),
        }
    }
}

pub open spec fn result_view(r: Result<String, TransformError>) -> Result<Seq<char>, Fault> {
    match r {
        Ok(s) => Ok(s@),
        Err(e) => Err(e.view()),
    }
}

/// Whether one condition holds of an input.
pub open spec fn condition_holds(
    c: Condition,
    input: Seq<char>,
    ctx: Seq<(Seq<char>, Seq<char>)>,
) -> bool {
    match c {
        Condition::InputType(t) => t@ == "numeric_port"@ && is_port_text(input),
        Condition::HasSpeedData(b) => !b || value_or_empty(ctx, "link_speed"@).len() > 0,
        Condition::MinLength(n) => utf8_len(input) >= n,
        Condition::MaxLength(n) => utf8_len(input) <= n,
    }
}

pub open spec fn conditions_hold(
    cs: Seq<Condition>,
    input: Seq<char>,
    ctx: Seq<(Seq<char>, Seq<char>)>,
) -> bool {
    forall|i: int| 0 <= i < cs.len() ==> condition_holds(#[trigger] cs[i], input, ctx)
}

/// The first entry whose case-folded key is `t`.
pub open spec fn folded_key_lookup(m: Seq<(Seq<char>, Seq<char>)>, t: Seq<char>) -> Option<
    Seq<char>,
>
    decreases m.len(),
{
    if m.len() == 0 {
        None
    } else if lower_of(m[0].0) == t {
        Some(m[0].1)
    } else {
        folded_key_lookup(m.drop_first(), t)
    }
}

/// A value map: the entry for the input, else the first entry equal to it
/// case-insensitively, else the input itself.
pub open spec fn value_map_result(m: Seq<(Seq<char>, Seq<char>)>, input: Seq<char>) -> Seq<char> {
    match lookup(m, input) {
        Some(v) => v,
        None => match folded_key_lookup(m, lower_of(input)) {
            Some(v) => v,
            None => input,
        },
    }
}

/// Context placeholders `{field}` replaced by their values, in context order.
pub open spec fn fill_context(s: Seq<char>, ctx: Seq<(Seq<char>, Seq<char>)>) -> Seq<char>
    decreases ctx.len(),
{
    if ctx.len() == 0 {
        s
    } else {
        fill_context(replace_all(s, seq!['{'] + ctx[0].0 + seq!['}'], ctx[0].1), ctx.drop_first())
    }
}

/// A template with `{input}` and then each `{field}` of the context substituted.
pub open spec fn template_result(
    t: Seq<char>,
    input: Seq<char>,
    ctx: Seq<(Seq<char>, Seq<char>)>,
) -> Seq<char> {
    fill_context(replace_all(t, "{input}"@, input), ctx)
}

pub fn lookup_value(m: &Vec<(String, String)>, k: &str) -> (r: Option<String>)
    ensures
        match r {
            Some(v) => lookup(pairs_view(m@), k@) == Some(v@),
            None => lookup(pairs_view(m@), k@) is None,
        },
{
    match find_key(m, k) {
        Some(i) => {
            assert(pairs_view(m@)[i as int].1 == m@[i as int].1@);
            Some(m[i].1.clone())
        },
        None => None,
    }
}

/// Applies a value map.
pub proof fn lemma_first_folded_lower(
    m: Seq<(Seq<char>, Seq<char>)>,
    fk: Seq<Seq<char>>,
    t: Seq<char>,
)
    requires
        fk.len() == m.len(),
        forall|k: int| 0 <= k < m.len() ==> #[trigger] fk[k] == lower_of(m[k].0),
    ensures
        first_folded(m, fk, t) == folded_key_lookup(m, t),
    decreases m.len(),
{
    if m.len() > 0 {
        let (m2, f2) = (m.drop_first(), fk.drop_first());
        assert forall|k: int| 0 <= k < m2.len() implies #[trigger] f2[k] == lower_of(m2[k].0) by {
            assert(f2[k] == fk[k + 1]);
            assert(m2[k] == m[k + 1]);
        }
        assert(fk[0] == lower_of(m[0].0));
        lemma_first_folded_lower(m2, f2, t);
    }
}

/// Applies a value map.
pub fn apply_value_map(m: &Vec<(String, String)>, input: &str) -> (r: String)
    ensures
        r@ == value_map_result(pairs_view(m@), input@),
{
    match lookup_value(m, input) {
        Some(v) => {
            return v;
        },
        None => {},
    }
    let ghost pv = pairs_view(m@);
    let target = to_lowercase(input);
    let mut keys: Vec<String> = Vec::new();
    let mut i: usize = 0;
    while i < m.len()
        invariant
            i <= m@.len(),
            pv == pairs_view(m@),
            keys@.len() == i,
            forall|k: int| 0 <= k < i ==> #[trigger] keys@[k]@ == lower_of(pv[k].0),
        decreases m.len() - i,
    {
        assert(pv[i as int].0 == m@[i as int].0@);
        keys.push(to_lowercase(m[i].0.as_str()));
        i = i + 1;
    }
    proof {
        let fv = cells_view(keys@);
        assert forall|k: int| 0 <= k < pv.len() implies #[trigger] fv[k] == lower_of(pv[k].0) by {
            assert(fv[k] == keys@[k]@);
        }
        lemma_first_folded_lower(pv, fv, target@);
    }
    match lookup_folded(m, &keys, target.as_str()) {
        Some(v) => v,
        None => owned(input),
    }
}

/// Fills a template from the input and the context.
pub fn apply_template(template: &str, input: &str, context: &FieldMap) -> (r: String)
    ensures
        r@ == template_result(template@, input@, pairs_view(context@)),
{
    let t = chars_of(template);
    let p = chars_of("{input}");
    let v = chars_of(input);
    let mut cur = replace_chars(&t, &p, &v);
    let ghost pv = pairs_view(context@);
    let mut i: usize = 0;
    assert(pv.subrange(0, pv.len() as int) =~= pv);
    while i < context.len()
        invariant
            i <= context@.len(),
            pv == pairs_view(context@),
            fill_context(cur@, pv.subrange(i as int, pv.len() as int)) == template_result(
                template@,
                input@,
                pv,
            ),
        decreases context.len() - i,
    {
        let mut ph: Vec<char> = Vec::new();
        ph.push('{');
        push_str_chars(&mut ph, context[i].0.as_str());
        ph.push('}');
        let val = chars_of(context[i].1.as_str());
        let ghost sub = pv.subrange(i as int, pv.len() as int);
        assert(sub[0] == pv[i as int]);
        assert(ph@ =~= seq!['{'] + sub[0].0 + seq!['}']);
        assert(sub.drop_first() =~= pv.subrange(i + 1, pv.len() as int));
        cur = replace_chars(&cur, &ph, &val);
        i = i + 1;
    }
    string_of(&cur)
}

} // verus!

verus! {

/// One pipeline step applied to the current value.
pub open spec fn step_result(
    st: TransformationStep,
    input: Seq<char>,
    ctx: Seq<(Seq<char>, Seq<char>)>,
) -> Result<Seq<char>, Fault> {
    if st.step_type@ == "function"@ {
        match st.name {
            Some(n) => match builtin_named(n@) {
                Some(f) => Ok(builtin_result(f, input, ctx)),
                None => Err(Fault::UnknownFunction(n@)),
            },
            None => Err(Fault::MissingParameter("function"@, "name"@)),
        }
    } else if st.step_type@ == "template"@ {
        match st.template {
            Some(t) => Ok(template_result(t@, input, ctx)),
            None => Err(Fault::MissingParameter("template"@, "template"@)),
        }
    } else if st.step_type@ == "value_map"@ {
        match st.mappings {
            Some(m) => Ok(value_map_result(pairs_view(m@), input)),
            None => Err(Fault::MissingParameter("value_map"@, "mappings"@)),
        }
    } else {
        Err(Fault::UnknownStepType(st.step_type@))
    }
}

/// Steps applied in order; a step that fails leaves the value as it was and
/// the next step goes on from there.
pub open spec fn pipeline_value(
    steps: Seq<TransformationStep>,
    input: Seq<char>,
    ctx: Seq<(Seq<char>, Seq<char>)>,
) -> Seq<char>
    decreases steps.len(),
{
    if steps.len() == 0 {
        input
    } else {
        let v = pipeline_value(steps.drop_last(), input, ctx);
        match step_result(steps.last(), v, ctx) {
            Ok(x) => x,
            Err(_) => v,
        }
    }
}

/// The failures of a pipeline's steps, in order.
pub open spec fn pipeline_faults(
    steps: Seq<TransformationStep>,
    input: Seq<char>,
    ctx: Seq<(Seq<char>, Seq<char>)>,
) -> Seq<Fault>
    decreases steps.len(),
{
    if steps.len() == 0 {
        Seq::empty()
    } else {
        let p = pipeline_faults(steps.drop_last(), input, ctx);
        match step_result(steps.last(), pipeline_value(steps.drop_last(), input, ctx), ctx) {
            Ok(_) => p,
            Err(e) => p.push(e),
        }
    }
}

pub open spec fn logic_result(
    l: TransformationLogic,
    input: Seq<char>,
    ctx: Seq<(Seq<char>, Seq<char>)>,
) -> Result<Seq<char>, Fault> {
    match l {
        TransformationLogic::ValueMap { mappings } => Ok(
            value_map_result(pairs_view(mappings@), input),
        ),
        TransformationLogic::Template { template } => Ok(template_result(template@, input, ctx)),
        TransformationLogic::Function { name } => match builtin_named(name@) {
            Some(f) => Ok(builtin_result(f, input, ctx)),
            None => Err(Fault::UnknownFunction(name@)),
        },
        TransformationLogic::Pipeline { steps } => Ok(pipeline_value(steps@, input, ctx)),
    }
}

/// A rule applied to an input: unchanged where a condition fails.
pub open spec fn rule_result(
    rule: TransformationRule,
    input: Seq<char>,
    ctx: Seq<(Seq<char>, Seq<char>)>,
) -> Result<Seq<char>, Fault> {
    match rule.conditions {
        Some(cs) => if !conditions_hold(cs@, input, ctx) {
            Ok(input)
        } else {
            logic_result(rule.logic, input, ctx)
        },
        None => logic_result(rule.logic, input, ctx),
    }
}

/// The step failures a rule reports while still producing a value.
pub open spec fn rule_faults(
    rule: TransformationRule,
    input: Seq<char>,
    ctx: Seq<(Seq<char>, Seq<char>)>,
) -> Seq<Fault> {
    let gated = match rule.conditions {
        Some(cs) => !conditions_hold(cs@, input, ctx),
        None => false,
    };
    if gated {
        Seq::empty()
    } else {
        match rule.logic {
            TransformationLogic::Pipeline { steps } => pipeline_faults(steps@, input, ctx),
            _ => Seq::empty(),
        }
    }
}

pub open spec fn faults_view(v: Seq<TransformError>) -> Seq<Fault> {
    v.map_values(|e: TransformError| e.view())
}

/// Whether a pipeline step is well formed.
pub open spec fn step_check(st: TransformationStep) -> Result<(), Fault> {
    if st.step_type@ == "function"@ {
        match st.name {
            Some(n) => if builtin_named(n@) is Some {
                Ok(())
            } else {
                Err(Fault::UnknownFunction(n@))
            },
            None => Err(Fault::MissingParameter("function"@, "name"@)),
        }
    } else if st.step_type@ == "template"@ {
        if st.template is Some {
            Ok(())
        } else {
            Err(Fault::MissingParameter("template"@, "template"@))
        }
    } else if st.step_type@ == "value_map"@ {
        if st.mappings is Some {
            Ok(())
        } else {
            Err(Fault::MissingParameter("value_map"@, "mappings"@))
        }
    } else {
        Err(Fault::UnknownStepType(st.step_type@))
    }
}

/// The first ill-formed step, if any.
pub open spec fn steps_check(steps: Seq<TransformationStep>) -> Result<(), Fault>
    decreases steps.len(),
{
    if steps.len() == 0 {
        Ok(())
    } else {
        match step_check(steps[0]) {
            Ok(_) => steps_check(steps.drop_first()),
            Err(e) => Err(e),
        }
    }
}

/// Whether a rule is well formed: a known function, a non-empty template or
/// value map, a non-empty pipeline of well-formed steps.
pub open spec fn rule_check(rule: TransformationRule) -> Result<(), Fault> {
    match rule.logic {
        TransformationLogic::Function { name } => if builtin_named(name@) is Some {
            Ok(())
        } else {
            Err(Fault::UnknownFunction(name@))
        },
        TransformationLogic::Template { template } => if template@.len() == 0 {
            Err(Fault::EmptyLogic("template"@))
        } else {
            Ok(())
        },
        TransformationLogic::ValueMap { mappings } => if mappings@.len() == 0 {
            Err(Fault::EmptyLogic("value_map"@))
        } else {
            Ok(())
        },
        TransformationLogic::Pipeline { steps } => if steps@.len() == 0 {
            Err(Fault::EmptyLogic("pipeline"@))
        } else {
            steps_check(steps@)
        },
    }
}

pub fn missing(step_type: &str, parameter: &str) -> (r: TransformError)
    ensures
        r.view() == Fault::MissingParameter(step_type@, parameter@),
{
    TransformError::MissingParameter { step_type: owned(step_type), parameter: owned(parameter) }
}

impl TransformationEngine {
    /// Whether every condition holds of the input.
    pub fn evaluate_conditions(&self, conditions: &Vec<Condition>, input: &str, context: &FieldMap) -> (r: bool)
        ensures
            r == conditions_hold(conditions@, input@, pairs_view(context@)),
    {
        let len = byte_len(input);
        let mut i: usize = 0;
        while i < conditions.len()
            invariant
                i <= conditions@.len(),
                len == utf8_len(input@),
                forall|j: int|
                    0 <= j < i ==> condition_holds(#[trigger] conditions@[j], input@, pairs_view(context@)),
            decreases conditions.len() - i,
        {
            let ok = match &conditions[i] {
                Condition::InputType(t) => str_eq(t.as_str(), "numeric_port") && Self::is_numeric_port(input),
                Condition::HasSpeedData(b) => {
                    if *b {
                        let s = get_or_empty(context, "link_speed");
                        s.unicode_len() > 0
                    } else {
                        true
                    }
                },
                Condition::MinLength(n) => len >= *n as u128,
                Condition::MaxLength(n) => len <= *n as u128,
            };
            if !ok {
                return false;
            }
            i = i + 1;
        }
        true
    }

    /// One pipeline step.
    pub fn apply_transformation_step(&self, step: &TransformationStep, input: &str, context: &FieldMap) -> (r: Result<String, TransformError>)
        ensures
            result_view(r) == step_result(*step, input@, pairs_view(context@)),
    {
        if str_eq(step.step_type.as_str(), "function") {
            match &step.name {
                Some(n) => match BuiltinFunction::from_name(n.as_str()) {
                    Some(f) => Ok(f.apply(input, context)),
                    None => Err(TransformError::UnknownFunction { name: n.clone() }),
                },
                None => Err(missing("function", "name")),
            }
        } else if str_eq(step.step_type.as_str(), "template") {
            match &step.template {
                Some(t) => Ok(apply_template(t.as_str(), input, context)),
                None => Err(missing("template", "template")),
            }
        } else if str_eq(step.step_type.as_str(), "value_map") {
            match &step.mappings {
                Some(m) => Ok(apply_value_map(m, input)),
                None => Err(missing("value_map", "mappings")),
            }
        } else {
            Err(TransformError::UnknownStepType { step_type: step.step_type.clone() })
        }
    }

    /// A rule applied to an input, with the field values as context.
    pub fn apply_transformation(&self, rule: &TransformationRule, input: &str, context: &FieldMap) -> (r: Result<String, TransformError>)
        ensures
            result_view(r) == rule_result(*rule, input@, pairs_view(context@)),
    {
        self.apply_transformation_reporting(rule, input, context).0
    }

    /// Steps applied in order; a failing step is reported and leaves the
    /// value as it was, and the following steps still run.
    pub fn apply_pipeline(&self, steps: &Vec<TransformationStep>, input: &str, context: &FieldMap) -> (r: (String, Vec<TransformError>))
        ensures
            r.0@ == pipeline_value(steps@, input@, pairs_view(context@)),
            faults_view(r.1@) == pipeline_faults(steps@, input@, pairs_view(context@)),
    {
        let ghost ctx = pairs_view(context@);
        let mut cur = owned(input);
        let mut faults: Vec<TransformError> = Vec::new();
        let mut i: usize = 0;
        assert(steps@.subrange(0, 0) =~= Seq::<TransformationStep>::empty());
        assert(faults_view(faults@) =~= Seq::<Fault>::empty());
        while i < steps.len()
            invariant
                i <= steps@.len(),
                ctx == pairs_view(context@),
                cur@ == pipeline_value(steps@.subrange(0, i as int), input@, ctx),
                faults_view(faults@) == pipeline_faults(steps@.subrange(0, i as int), input@, ctx),
            decreases steps.len() - i,
        {
            assert(steps@.subrange(0, i + 1).drop_last() =~= steps@.subrange(0, i as int));
            assert(steps@.subrange(0, i + 1).last() == steps@[i as int]);
            match self.apply_transformation_step(&steps[i], cur.as_str(), context) {
                Ok(v) => {
                    cur = v;
                },
                Err(e) => {
                    let ghost old = faults_view(faults@);
                    faults.push(e);
                    assert(faults_view(faults@) =~= old.push(e.view()));
                },
            }
            i = i + 1;
        }
        assert(steps@.subrange(0, steps@.len() as int) =~= steps@);
        (cur, faults)
    }

    /// A rule applied to an input, with the failures of pipeline steps that
    /// were passed over.
    pub fn apply_transformation_reporting(&self, rule: &TransformationRule, input: &str, context: &FieldMap) -> (r: (Result<String, TransformError>, Vec<TransformError>))
        ensures
            result_view(r.0) == rule_result(*rule, input@, pairs_view(context@)),
            faults_view(r.1@) == rule_faults(*rule, input@, pairs_view(context@)),
    {
        match &rule.conditions {
            Some(cs) => {
                if !self.evaluate_conditions(cs, input, context) {
                    assert(faults_view(Seq::<TransformError>::empty()) =~= Seq::<Fault>::empty());
                    return (Ok(owned(input)), Vec::new());
                }
            },
            None => {},
        }
        assert(faults_view(Seq::<TransformError>::empty()) =~= Seq::<Fault>::empty());
        match &rule.logic {
            TransformationLogic::ValueMap { mappings } => (Ok(apply_value_map(mappings, input)), Vec::new()),
            TransformationLogic::Template { template } => (Ok(apply_template(template.as_str(), input, context)), Vec::new()),
            TransformationLogic::Function { name } => match BuiltinFunction::from_name(name.as_str()) {
                Some(f) => (Ok(f.apply(input, context)), Vec::new()),
                None => (Err(TransformError::UnknownFunction { name: name.clone() }), Vec::new()),
            },
            TransformationLogic::Pipeline { steps } => {
                let (v, faults) = self.apply_pipeline(steps, input, context);
                (Ok(v), faults)
            },
        }
    }

    /// Checks that a rule is well formed.
    pub fn validate_transformation_rule(&self, rule: &TransformationRule) -> (r: Result<(), TransformError>)
        ensures
            match r {
                Ok(_) => rule_check(*rule) == Ok::<(), Fault>(()),
                Err(e) => rule_check(*rule) == Err::<(), Fault>(e.view()),
            },
    {
        match &rule.logic {
            TransformationLogic::Function { name } => {
                if BuiltinFunction::from_name(name.as_str()).is_none() {
                    let e = TransformError::UnknownFunction { name: name.clone() };
                    assert(rule_check(*rule) == Err::<(), Fault>(e.view()));
                    return Err(e);
                }
                assert(rule_check(*rule) == Ok::<(), Fault>(()));
                Ok(())
            },
            TransformationLogic::Template { template } => {
                if template.unicode_len() == 0 {
                    let e = TransformError::EmptyLogic { kind: owned("template") };
                    assert(rule_check(*rule) == Err::<(), Fault>(e.view()));
                    return Err(e);
                }
                assert(rule_check(*rule) == Ok::<(), Fault>(()));
                Ok(())
            },
            TransformationLogic::ValueMap { mappings } => {
                if mappings.len() == 0 {
                    let e = TransformError::EmptyLogic { kind: owned("value_map") };
                    assert(rule_check(*rule) == Err::<(), Fault>(e.view()));
                    return Err(e);
                }
                assert(rule_check(*rule) == Ok::<(), Fault>(()));
                Ok(())
            },
            TransformationLogic::Pipeline { steps } => {
                if steps.len() == 0 {
                    let e = TransformError::EmptyLogic { kind: owned("pipeline") };
                    assert(rule_check(*rule) == Err::<(), Fault>(e.view()));
                    return Err(e);
                }
                let mut i: usize = 0;
                assert(steps@.subrange(0, steps@.len() as int) =~= steps@);
                assert(rule_check(*rule) == steps_check(steps@));
                while i < steps.len()
                    invariant
                        i <= steps@.len(),
                        steps_check(steps@) == steps_check(steps@.subrange(i as int, steps@.len() as int)),
                        rule_check(*rule) == steps_check(steps@),
                    decreases steps.len() - i,
                {
                    let st = &steps[i];
                    let ghost sub = steps@.subrange(i as int, steps@.len() as int);
                    assert(sub[0] == steps@[i as int]);
                    assert(sub.drop_first() =~= steps@.subrange(i + 1, steps@.len() as int));
                    if str_eq(st.step_type.as_str(), "function") {
                        match &st.name {
                            Some(n) => {
                                if BuiltinFunction::from_name(n.as_str()).is_none() {
                                    let e = TransformError::UnknownFunction { name: n.clone() };
                                    assert(rule_check(*rule) == Err::<(), Fault>(e.view()));
                                    return Err(e);
                                }
                            },
                            None => {
                                let e = missing("function", "name");
                                assert(rule_check(*rule) == Err::<(), Fault>(e.view()));
                                return Err(e);
                            },
                        }
                    } else if str_eq(st.step_type.as_str(), "template") {
                        if st.template.is_none() {
                            let e = missing("template", "template");
                            assert(rule_check(*rule) == Err::<(), Fault>(e.view()));
                            return Err(e);
                        }
                    } else if str_eq(st.step_type.as_str(), "value_map") {
                        if st.mappings.is_none() {
                            let e = missing("value_map", "mappings");
                            assert(rule_check(*rule) == Err::<(), Fault>(e.view()));
                            return Err(e);
                        }
                    } else {
                        let e = TransformError::UnknownStepType { step_type: st.step_type.clone() };
                        assert(rule_check(*rule) == Err::<(), Fault>(e.view()));
                        return Err(e);
                    }
                    i = i + 1;
                }
                assert(steps@.subrange(i as int, steps@.len() as int).len() == 0);
                assert(steps_check(steps@) == Ok::<(), Fault>(()));
                assert(rule_check(*rule) == Ok::<(), Fault>(()));
                Ok(())
            },
        }
    }
}


} // verus!

verus! {

/// The built-ins whose results are stated here are no-ops on their own
/// output: trimming, interface naming and LAG-mode canonicalisation, and
/// bandwidth normalisation where its output is a canonical token, equal to
/// its own upper-cased form. (Case mapping is left out: its result is only
/// named.)
pub proof fn lemma_builtin_idempotent(
    f: BuiltinFunction,
    x: Seq<char>,
    ctx: Seq<(Seq<char>, Seq<char>)>,
)
    requires
        f != BuiltinFunction::ToUppercase,
        f != BuiltinFunction::ToLowercase,
        f == BuiltinFunction::NormalizeSpeed ==> upper_of(trimmed(speed_of(x))) == speed_of(x),
    ensures
        builtin_result(f, builtin_result(f, x, ctx), ctx) == builtin_result(f, x, ctx),
{
    match f {
        BuiltinFunction::TrimWhitespace => crate::text::lemma_trimmed_idempotent(x),
        BuiltinFunction::NormalizeSpeed => crate::builtins::lemma_speed_idempotent(x),
        BuiltinFunction::LagModeConversion => crate::builtins::lemma_lag_idempotent(x),
        BuiltinFunction::GenerateInterfaceName => {
            if is_port_text(x) {
                crate::builtins::lemma_interface_name_not_port(
                    x,
                    value_or_empty(ctx, "link_speed"@),
                );
            }
        },
        _ => {},
    }
}

} // verus!
