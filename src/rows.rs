//! Canonical link rows: assembly from transformed field values, and the whole
//! conversion of a sheet grid.

use vstd::prelude::*;
use crate::fields::{find_key, lookup, pairs_view, FieldMap};
use crate::merge::{
    cells_view, fill_down, fill_merged_columns, grid_view, propagate_merged_cells_in_row,
    reconstruct_row,
};
use crate::model::EnhancedConversionMap;
use crate::resolver::{match_view, Confidence};
use crate::service::{
    failures_upto, failures_view, header_resolution, total_errors, transformed_fields,
    EnhancedConversionService, HeaderConversionResult, TransformReport,
};
use crate::text::{blank, is_blank, lower_of, str_eq, to_lowercase, trim, trimmed};

verus! {

/// One physical link in the form the fabric controller consumes.
#[derive(Clone, Debug)]
pub struct NetworkConfigRow {
    pub blueprint: Option<String>,
    pub server_label: Option<String>,
    pub is_external: Option<bool>,
    pub server_tags: Option<String>,
    pub link_group_ifname: Option<String>,
    pub link_group_lag_mode: Option<String>,
    pub link_group_ct_names: Option<String>,
    pub link_group_tags: Option<String>,
    pub link_speed: Option<String>,
    pub server_ifname: Option<String>,
    pub switch_label: Option<String>,
    pub switch_ifname: Option<String>,
    pub link_tags: Option<String>,
    pub comment: Option<String>,
}

/// The value of `k` where it is present and not blank.
pub open spec fn present(m: Seq<(Seq<char>, Seq<char>)>, k: Seq<char>) -> Option<Seq<char>> {
    match lookup(m, k) {
        Some(v) => if blank(v) {
            None
        } else {
            Some(v)
        },
        None => None,
    }
}

pub open spec fn opt_view(o: Option<String>) -> Option<Seq<char>> {
    match o {
        Some(s) => Some(s@),
        None => None,
    }
}

/// A flag read as `bool::from_str` reads the lower-cased text.
pub open spec fn flag_of(v: Option<Seq<char>>) -> Option<bool> {
    match v {
        Some(s) => if lower_of(s) == "true"@ {
            Some(true)
        } else if lower_of(s) == "false"@ {
            Some(false)
        } else {
            None
        },
        None => None,
    }
}

/// Whether a row carries neither identity field and so is no link record.
pub open spec fn lacks_identity(m: Seq<(Seq<char>, Seq<char>)>) -> bool {
    present(m, "switch_label"@) is None && present(m, "switch_ifname"@) is None
}

/// The row assembled from field values, as its fields must read.
pub open spec fn row_matches(r: NetworkConfigRow, m: Seq<(Seq<char>, Seq<char>)>) -> bool {
    &&& r.blueprint is None
    &&& opt_view(r.switch_label) == present(m, "switch_label"@)
    &&& opt_view(r.switch_ifname) == present(m, "switch_ifname"@)
    &&& opt_view(r.server_label) == present(m, "server_label"@)
    &&& opt_view(r.server_ifname) == present(m, "server_ifname"@)
    &&& opt_view(r.link_speed) == present(m, "link_speed"@)
    &&& opt_view(r.link_group_lag_mode) == present(m, "link_group_lag_mode"@)
    &&& opt_view(r.link_group_ct_names) == present(m, "link_group_ct_names"@)
    &&& opt_view(r.link_group_ifname) == present(m, "link_group_ifname"@)
    &&& opt_view(r.server_tags) == present(m, "server_tags"@)
    &&& opt_view(r.link_group_tags) == present(m, "switch_tags"@)
    &&& opt_view(r.link_tags) == present(m, "link_tags"@)
    &&& opt_view(r.comment) == present(m, "comment"@)
    &&& r.is_external == flag_of(present(m, "is_external"@))
}

/// The non-blank value of `k`.
pub fn present_value(m: &FieldMap, k: &str) -> (r: Option<String>)
    ensures
        opt_view(r) == present(pairs_view(m@), k@),
{
    match find_key(m, k) {
        Some(i) => {
            assert(pairs_view(m@)[i as int].1 == m@[i as int].1@);
            if is_blank(m[i].1.as_str()) {
                None
            } else {
                Some(m[i].1.clone())
            }
        },
        None => None,
    }
}

/// Reads a flag: `true` or `false` in any case.
pub fn parse_flag(v: Option<String>) -> (r: Option<bool>)
    ensures
        r == flag_of(opt_view(v)),
{
    match v {
        Some(s) => {
            let l = to_lowercase(s.as_str());
            if str_eq(l.as_str(), "true") {
                Some(true)
            } else if str_eq(l.as_str(), "false") {
                Some(false)
            } else {
                None
            }
        },
        None => None,
    }
}

/// The canonical row for a row's transformed field values; `None` where the
/// row carries neither the switch identity nor the switch interface.
pub fn convert_enhanced_to_network_config_row(field_data: &FieldMap) -> (r: Option<
    NetworkConfigRow,
>)
    ensures
        r is None <==> lacks_identity(pairs_view(field_data@)),
        r matches Some(row) ==> row_matches(row, pairs_view(field_data@)),
{
    let switch_label = present_value(field_data, "switch_label");
    let switch_ifname = present_value(field_data, "switch_ifname");
    if switch_label.is_none() && switch_ifname.is_none() {
        return None;
    }
    let is_external = parse_flag(present_value(field_data, "is_external"));
    Some(
        NetworkConfigRow {
            blueprint: None,
            server_label: present_value(field_data, "server_label"),
            is_external,
            server_tags: present_value(field_data, "server_tags"),
            link_group_ifname: present_value(field_data, "link_group_ifname"),
            link_group_lag_mode: present_value(field_data, "link_group_lag_mode"),
            link_group_ct_names: present_value(field_data, "link_group_ct_names"),
            link_group_tags: present_value(field_data, "switch_tags"),
            link_speed: present_value(field_data, "link_speed"),
            server_ifname: present_value(field_data, "server_ifname"),
            switch_label,
            switch_ifname,
            link_tags: present_value(field_data, "link_tags"),
            comment: present_value(field_data, "comment"),
        },
    )
}

/// A row with either identity field is kept; only a row with neither is
/// rejected.
pub proof fn lemma_rejected_only_without_both(m: Seq<(Seq<char>, Seq<char>)>)
    ensures
        present(m, "switch_label"@) is Some ==> !lacks_identity(m),
        present(m, "switch_ifname"@) is Some ==> !lacks_identity(m),
        lacks_identity(m) <==> (present(m, "switch_label"@) is None && present(
            m,
            "switch_ifname"@,
        ) is None),
{
}

} // verus!

verus! {

/// Whether a column's empty cells take the value of the rows above: the
/// connectivity-template and server-name columns, by raw header or by the
/// field the header resolved to.
pub open spec fn merge_eligible(h: Seq<char>, m: Option<(Seq<char>, Confidence)>) -> bool {
    h == "CTs"@ || h == "link_group_ct_names"@ || h == "Host Name"@ || h == "server_label"@ || (
    m matches Some(x) && (x.0 == "link_group_ct_names"@ || x.0 == "server_label"@))
}

/// Index of the header row: the map's 1-based row, the first when unset.
pub open spec fn header_index(map: EnhancedConversionMap) -> int {
    let n: int = match map.header_row {
        Some(n) => n as int,
        None => 1,
    };
    if n > 0 {
        n - 1
    } else {
        0
    }
}

pub open spec fn trim_all(row: Seq<Seq<char>>) -> Seq<Seq<char>> {
    row.map_values(|s: Seq<char>| trimmed(s))
}

/// The row's cells under each header, trimmed; missing cells are empty.
pub open spec fn row_values(row: Seq<Seq<char>>, n: int) -> Seq<Seq<char>> {
    Seq::new(
        n as nat,
        |c: int|
            if c < row.len() {
                trimmed(row[c])
            } else {
                Seq::empty()
            },
    )
}

/// Field values of a row: each resolved column gives its field the cell's
/// value; where two columns resolve to one field the first one counts.
pub open spec fn row_fields(
    values: Seq<Seq<char>>,
    res: Seq<Option<(Seq<char>, Confidence)>>,
) -> Seq<(Seq<char>, Seq<char>)>
    decreases values.len(),
{
    if values.len() == 0 {
        Seq::empty()
    } else {
        let p = row_fields(values.drop_last(), res);
        let c = values.len() - 1;
        match res[c] {
            Some(x) => if lookup(p, x.0) is Some {
                p
            } else {
                p.push((x.0, values[c]))
            },
            None => p,
        }
    }
}

/// Headers of a grid: the header row repaired and trimmed.
pub open spec fn sheet_headers(grid: Seq<Seq<Seq<char>>>, map: EnhancedConversionMap) -> Seq<
    Seq<char>,
> {
    trim_all(reconstruct_row(grid[header_index(map)]))
}

/// Data rows with merged columns filled down.
pub open spec fn sheet_data(grid: Seq<Seq<Seq<char>>>, map: EnhancedConversionMap) -> Seq<
    Seq<Seq<char>>,
> {
    let hs = sheet_headers(grid, map);
    let res = header_resolution(hs, map.field_definitions@);
    fill_down(
        grid.subrange(header_index(map) + 1, grid.len() as int),
        Seq::new(hs.len(), |c: int| merge_eligible(hs[c], res[c])),
    )
}

/// Accepted rows' transformed field values and rejected rows' grid indices,
/// over the first `k` data rows; rows with only blank cells are skipped.
pub open spec fn sheet_outcome(grid: Seq<Seq<Seq<char>>>, map: EnhancedConversionMap, k: int) -> (
    Seq<Seq<(Seq<char>, Seq<char>)>>,
    Seq<int>,
)
    decreases k,
{
    if k <= 0 {
        (Seq::empty(), Seq::empty())
    } else {
        let prev = sheet_outcome(grid, map, k - 1);
        let hs = sheet_headers(grid, map);
        let res = header_resolution(hs, map.field_definitions@);
        let vals = row_values(sheet_data(grid, map)[k - 1], hs.len() as int);
        if forall|c: int| 0 <= c < vals.len() ==> blank(#[trigger] vals[c]) {
            prev
        } else {
            let t = transformed_fields(row_fields(vals, res), map);
            if lacks_identity(t) {
                (prev.0, prev.1.push(header_index(map) + k))
            } else {
                (prev.0.push(t), prev.1)
            }
        }
    }
}

/// Whether every cell of a row's values is blank.
pub open spec fn blank_row(vals: Seq<Seq<char>>) -> bool {
    forall|c: int| 0 <= c < vals.len() ==> blank(#[trigger] vals[c])
}

/// The field values of data row `k - 1` (1-based `k`) before transformation.
pub open spec fn sheet_row_fields(grid: Seq<Seq<Seq<char>>>, map: EnhancedConversionMap, k: int) -> Seq<
    (Seq<char>, Seq<char>),
> {
    let hs = sheet_headers(grid, map);
    let res = header_resolution(hs, map.field_definitions@);
    row_fields(row_values(sheet_data(grid, map)[k - 1], hs.len() as int), res)
}

pub open spec fn sheet_row_blank(grid: Seq<Seq<Seq<char>>>, map: EnhancedConversionMap, k: int) -> bool {
    let hs = sheet_headers(grid, map);
    blank_row(row_values(sheet_data(grid, map)[k - 1], hs.len() as int))
}

/// Rules that were missing or failed, with grid row index, field and rule,
/// over the first `k` data rows.
pub open spec fn sheet_failures(grid: Seq<Seq<Seq<char>>>, map: EnhancedConversionMap, k: int) -> Seq<
    (int, Seq<char>, Seq<char>),
>
    decreases k,
{
    if k <= 0 {
        Seq::empty()
    } else {
        let prev = sheet_failures(grid, map, k - 1);
        if sheet_row_blank(grid, map, k) {
            prev
        } else {
            let f = sheet_row_fields(grid, map, k);
            prev + failures_upto(f, map, f).map_values(
                |p: (Seq<char>, Seq<char>)| (header_index(map) + k, p.0, p.1),
            )
        }
    }
}

/// Grid indices of accepted rows whose values the validator finds errors in.
pub open spec fn sheet_invalid(grid: Seq<Seq<Seq<char>>>, map: EnhancedConversionMap, k: int) -> Seq<
    int,
>
    decreases k,
{
    if k <= 0 {
        Seq::empty()
    } else {
        let prev = sheet_invalid(grid, map, k - 1);
        if sheet_row_blank(grid, map, k) {
            prev
        } else {
            let t = transformed_fields(sheet_row_fields(grid, map, k), map);
            if !lacks_identity(t) && total_errors(t, map) > 0 {
                prev.push(header_index(map) + k)
            } else {
                prev
            }
        }
    }
}

/// A rule that could not be applied while converting a row.
#[derive(Clone, Debug)]
pub struct RowFailure {
    pub row: usize,
    pub field: String,
    pub rule: String,
}

pub open spec fn row_failures_view(v: Seq<RowFailure>) -> Seq<(int, Seq<char>, Seq<char>)> {
    v.map_values(|f: RowFailure| (f.row as int, f.field@, f.rule@))
}

/// The rows a sheet converts to, and the grid indices of rows rejected for
/// lacking both identity fields.
#[derive(Clone, Debug)]
pub struct ParsedSheet {
    pub rows: Vec<NetworkConfigRow>,
    pub rejected: Vec<usize>,
    pub failures: Vec<RowFailure>,
    pub invalid: Vec<usize>,
    pub headers: HeaderConversionResult,
}

} // verus!

verus! {

/// A copy of a row of cells.
pub fn copy_row(row: &Vec<String>) -> (r: Vec<String>)
    ensures
        cells_view(r@) == cells_view(row@),
{
    let mut r: Vec<String> = Vec::new();
    let mut i: usize = 0;
    while i < row.len()
        invariant
            i <= row@.len(),
            r@.len() == i,
            forall|j: int| 0 <= j < i ==> #[trigger] r@[j]@ == row@[j]@,
        decreases row.len() - i,
    {
        r.push(row[i].clone());
        i = i + 1;
    }
    assert(cells_view(r@) =~= cells_view(row@));
    r
}

/// Each cell trimmed.
pub fn trim_cells(row: &Vec<String>) -> (r: Vec<String>)
    ensures
        cells_view(r@) == trim_all(cells_view(row@)),
{
    let mut r: Vec<String> = Vec::new();
    let mut i: usize = 0;
    while i < row.len()
        invariant
            i <= row@.len(),
            r@.len() == i,
            forall|j: int| 0 <= j < i ==> #[trigger] r@[j]@ == trimmed(row@[j]@),
        decreases row.len() - i,
    {
        r.push(trim(row[i].as_str()));
        i = i + 1;
    }
    assert(cells_view(r@) =~= trim_all(cells_view(row@)));
    r
}

/// Converts a grid of cells: repairs and resolves the header row, fills the
/// merged columns of the data rows, maps each row's cells to fields,
/// transforms them and assembles canonical rows; rows with only blank cells
/// are skipped, rows without both identity fields are rejected.
pub fn parse_worksheet_data(grid: &Vec<Vec<String>>, enhanced_map: &EnhancedConversionMap) -> (r:
    ParsedSheet)
    ensures
        (grid@.len() == 0 || header_index(*enhanced_map) >= grid@.len()) ==> r.rows@.len() == 0
            && r.rejected@.len() == 0,
        grid@.len() > 0 && header_index(*enhanced_map) < grid@.len() ==> {
            let o = sheet_outcome(
                grid_view(grid@),
                *enhanced_map,
                grid@.len() - header_index(*enhanced_map) - 1,
            );
            &&& r.rows@.len() == o.0.len()
            &&& forall|k: int| 0 <= k < o.0.len() ==> row_matches(#[trigger] r.rows@[k], o.0[k])
            &&& r.rejected@.map_values(|x: usize| x as int) == o.1
            &&& row_failures_view(r.failures@) == sheet_failures(
                grid_view(grid@),
                *enhanced_map,
                grid@.len() - header_index(*enhanced_map) - 1,
            )
            &&& r.invalid@.map_values(|x: usize| x as int) == sheet_invalid(
                grid_view(grid@),
                *enhanced_map,
                grid@.len() - header_index(*enhanced_map) - 1,
            )
        },
{
    let service = EnhancedConversionService::new();
    let n: u32 = match enhanced_map.header_row {
        Some(n) => n,
        None => 1,
    };
    let hi: usize = if n > 0 {
        (n - 1) as usize
    } else {
        0
    };
    if grid.len() == 0 || hi >= grid.len() {
        let none: Vec<String> = Vec::new();
        return ParsedSheet {
            rows: Vec::new(),
            rejected: Vec::new(),
            failures: Vec::new(),
            invalid: Vec::new(),
            headers: service.convert_headers_with_enhanced_map(&none, enhanced_map),
        };
    }
    let ghost g = grid_view(grid@);
    assert(g[hi as int] == cells_view(grid@[hi as int]@));
    let repaired = propagate_merged_cells_in_row(&grid[hi]);
    let headers = trim_cells(&repaired);
    let ghost hs = cells_view(headers@);
    assert(hs == sheet_headers(g, *enhanced_map));
    let conv = service.convert_headers_with_enhanced_map(&headers, enhanced_map);
    let ghost res = header_resolution(hs, enhanced_map.field_definitions@);
    let nh = headers.len();
    let mut eligible: Vec<bool> = Vec::new();
    let mut c: usize = 0;
    while c < nh
        invariant
            c <= nh == headers@.len(),
            hs == cells_view(headers@),
            conv.matches@.len() == nh,
            forall|j: int| 0 <= j < nh ==> match_view(#[trigger] conv.matches@[j]) == res[j],
            eligible@.len() == c,
            forall|j: int| 0 <= j < c ==> #[trigger] eligible@[j] == merge_eligible(hs[j], res[j]),
        decreases nh - c,
    {
        let h = headers[c].as_str();
        let by_field = match &conv.matches[c] {
            Some(m) => str_eq(m.field.as_str(), "link_group_ct_names") || str_eq(
                m.field.as_str(),
                "server_label",
            ),
            None => false,
        };
        let e = str_eq(h, "CTs") || str_eq(h, "link_group_ct_names") || str_eq(h, "Host Name")
            || str_eq(h, "server_label") || by_field;
        assert(match_view(conv.matches@[c as int]) == res[c as int]);
        eligible.push(e);
        c = c + 1;
    }
    let mut data: Vec<Vec<String>> = Vec::new();
    let mut i: usize = hi + 1;
    while i < grid.len()
        invariant
            hi < i <= grid@.len(),
            g == grid_view(grid@),
            data@.len() == i - hi - 1,
            forall|j: int| 0 <= j < data@.len() ==> cells_view(#[trigger] data@[j]@) == g[hi + 1 + j],
        decreases grid.len() - i,
    {
        data.push(copy_row(&grid[i]));
        i = i + 1;
    }
    assert(grid_view(data@) =~= g.subrange(hi + 1, g.len() as int));
    assert(eligible@ =~= Seq::new(hs.len(), |c: int| merge_eligible(hs[c], res[c])));
    let filled = fill_merged_columns(&data, &eligible);
    let ghost fd = grid_view(filled@);
    assert(fd == sheet_data(g, *enhanced_map));
    let mut rows: Vec<NetworkConfigRow> = Vec::new();
    let mut rejected: Vec<usize> = Vec::new();
    let mut failures: Vec<RowFailure> = Vec::new();
    let mut invalid: Vec<usize> = Vec::new();
    let mut r: usize = 0;
    let gl = grid.len();
    assert(rejected@.map_values(|x: usize| x as int) =~= Seq::<int>::empty());
    assert(invalid@.map_values(|x: usize| x as int) =~= Seq::<int>::empty());
    assert(row_failures_view(failures@) =~= Seq::<(int, Seq<char>, Seq<char>)>::empty());
    while r < filled.len()
        invariant
            r <= filled@.len() == grid@.len() - hi - 1,
            hi < grid@.len(),
            gl == grid@.len(),
            hi == header_index(*enhanced_map),
            g == grid_view(grid@),
            fd == grid_view(filled@),
            fd == sheet_data(g, *enhanced_map),
            hs == cells_view(headers@),
            hs == sheet_headers(g, *enhanced_map),
            res == header_resolution(hs, enhanced_map.field_definitions@),
            nh == headers@.len(),
            conv.matches@.len() == nh,
            forall|j: int| 0 <= j < nh ==> match_view(#[trigger] conv.matches@[j]) == res[j],
            rows@.len() == sheet_outcome(g, *enhanced_map, r as int).0.len(),
            forall|k: int|
                0 <= k < rows@.len() ==> row_matches(
                    #[trigger] rows@[k],
                    sheet_outcome(g, *enhanced_map, r as int).0[k],
                ),
            rejected@.map_values(|x: usize| x as int) == sheet_outcome(g, *enhanced_map, r as int).1,
            forall|k: int| 0 <= k < rejected@.len() ==> #[trigger] rejected@[k] < grid@.len(),
            row_failures_view(failures@) == sheet_failures(g, *enhanced_map, r as int),
            invalid@.map_values(|x: usize| x as int) == sheet_invalid(g, *enhanced_map, r as int),
        decreases filled.len() - r,
    {
        let row = &filled[r];
        assert(fd[r as int] == cells_view(row@));
        let ghost vals = row_values(fd[r as int], nh as int);
        let mut values: Vec<String> = Vec::new();
        let mut c: usize = 0;
        while c < nh
            invariant
                c <= nh,
                fd[r as int] == cells_view(row@),
                vals == row_values(fd[r as int], nh as int),
                values@.len() == c,
                forall|j: int| 0 <= j < c ==> #[trigger] values@[j]@ == vals[j],
            decreases nh - c,
        {
            if c < row.len() {
                values.push(trim(row[c].as_str()));
            } else {
                values.push(String::new());
            }
            c = c + 1;
        }
        let mut all_blank = true;
        let mut c: usize = 0;
        while c < nh
            invariant
                c <= nh == values@.len(),
                forall|j: int| 0 <= j < nh ==> #[trigger] values@[j]@ == vals[j],
                vals.len() == nh,
                all_blank <==> forall|j: int| 0 <= j < c ==> blank(#[trigger] vals[j]),
            decreases nh - c,
        {
            if !is_blank(values[c].as_str()) {
                all_blank = false;
            }
            c = c + 1;
        }
        let ghost prev = sheet_outcome(g, *enhanced_map, r as int);
        assert(sheet_outcome(g, *enhanced_map, r + 1) == {
            if forall|c: int| 0 <= c < vals.len() ==> blank(#[trigger] vals[c]) {
                prev
            } else {
                let t = transformed_fields(row_fields(vals, res), *enhanced_map);
                if lacks_identity(t) {
                    (prev.0, prev.1.push(hi + r + 1))
                } else {
                    (prev.0.push(t), prev.1)
                }
            }
        });
        let ghost prev_f = sheet_failures(g, *enhanced_map, r as int);
        let ghost prev_i = sheet_invalid(g, *enhanced_map, r as int);
        assert(vals == row_values(sheet_data(g, *enhanced_map)[r as int], sheet_headers(g, *enhanced_map).len() as int));
        assert(sheet_row_blank(g, *enhanced_map, r + 1) == blank_row(vals));
        if !all_blank {
            let mut fm: FieldMap = Vec::new();
            let mut c: usize = 0;
            assert(vals.subrange(0, 0) =~= Seq::<Seq<char>>::empty());
            assert(pairs_view(fm@) =~= Seq::<(Seq<char>, Seq<char>)>::empty());
            while c < nh
                invariant
                    c <= nh == values@.len(),
                    vals.len() == nh,
                    forall|j: int| 0 <= j < nh ==> #[trigger] values@[j]@ == vals[j],
                    conv.matches@.len() == nh,
                    forall|j: int| 0 <= j < nh ==> match_view(#[trigger] conv.matches@[j]) == res[j],
                    pairs_view(fm@) == row_fields(vals.subrange(0, c as int), res),
                decreases nh - c,
            {
                proof {
                    assert(vals.subrange(0, c + 1).drop_last() =~= vals.subrange(0, c as int));
                    assert(vals.subrange(0, c + 1)[c as int] == vals[c as int]);
                    assert(match_view(conv.matches@[c as int]) == res[c as int]);
                }
                match &conv.matches[c] {
                    Some(m) => {
                        if find_key(&fm, m.field.as_str()).is_none() {
                            let ghost old_fm = fm@;
                            fm.push((m.field.clone(), values[c].clone()));
                            assert(pairs_view(fm@) =~= pairs_view(old_fm).push((m.field@, vals[c as int])));
                        }
                    },
                    None => {},
                }
                c = c + 1;
            }
            assert(vals.subrange(0, nh as int) =~= vals);
            assert(pairs_view(fm@) == sheet_row_fields(g, *enhanced_map, r + 1));
            let report = service.transform_fields(&fm, enhanced_map);
            let TransformReport { fields: transformed, failures: fails } = report;
            let ghost fv = failures_view(fails@);
            let ghost base = row_failures_view(failures@);
            let row_index = hi + r + 1;
            let mut q: usize = 0;
            while q < fails.len()
                invariant
                    q <= fails@.len(),
                    fv == failures_view(fails@),
                    row_failures_view(failures@) == base + fv.subrange(0, q as int).map_values(
                        |p: (Seq<char>, Seq<char>)| (row_index as int, p.0, p.1),
                    ),
                decreases fails.len() - q,
            {
                let ghost old = row_failures_view(failures@);
                failures.push(RowFailure { row: row_index, field: fails[q].field.clone(), rule: fails[q].rule.clone() });
                assert(row_failures_view(failures@) =~= old.push((row_index as int, fv[q as int].0, fv[q as int].1)));
                assert(fv.subrange(0, q + 1).map_values(|p: (Seq<char>, Seq<char>)| (row_index as int, p.0, p.1))
                    =~= fv.subrange(0, q as int).map_values(|p: (Seq<char>, Seq<char>)| (row_index as int, p.0, p.1)).push((row_index as int, fv[q as int].0, fv[q as int].1)));
                q = q + 1;
            }
            assert(fv.subrange(0, fv.len() as int) =~= fv);
            assert(row_failures_view(failures@) == sheet_failures(g, *enhanced_map, r + 1));
            match convert_enhanced_to_network_config_row(&transformed) {
                Some(out) => {
                    let check = service.validate_field_values(&transformed, enhanced_map);
                    if !check.is_valid {
                        let ghost old_inv = invalid@;
                        invalid.push(row_index);
                        assert(invalid@.map_values(|x: usize| x as int) =~= old_inv.map_values(|x: usize| x as int).push(row_index as int));
                    }
                    rows.push(out);
                },
                None => {
                    let ghost old_rej = rejected@;
                    rejected.push(hi + r + 1);
                    assert(rejected@.map_values(|x: usize| x as int) =~= old_rej.map_values(|x: usize| x as int).push(hi + r + 1));
                },
            }
        }
        r = r + 1;
    }
    ParsedSheet { rows, rejected, failures, invalid, headers: conv }
}

} // verus!
