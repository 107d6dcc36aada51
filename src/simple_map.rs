//! The simple conversion map: explicit header-to-field mappings plus the
//! built-in table of generic field-name synonyms.

use vstd::prelude::*;
use crate::fields::{first_folded, lookup_folded, find_key, keys_unique, lemma_lookup_absent, lemma_lookup_index, lookup, pairs_view, FieldMap};
use crate::merge::cells_view;
use crate::text::{lower_of, owned, str_eq, to_lowercase, trim, trimmed};

verus! {

/// Generic names under which each canonical field commonly appears.
pub open spec fn default_variations() -> Seq<(Seq<char>, Seq<Seq<char>>)> {
    seq![
        ("server_label"@, seq!["server_label"@, "server"@, "server_name"@, "hostname"@, "host name"@, "host_name"@]),
        ("switch_label"@, seq!["switch_label"@, "switch"@, "switch_name"@, "switch name"@, "device"@]),
        ("switch_ifname"@, seq!["switch_ifname"@, "switch_interface"@, "switch_port"@, "switch port"@, "port"@, "interface"@]),
        ("server_ifname"@, seq!["server_ifname"@, "server_interface"@, "server_port"@, "server port"@, "nic"@, "slot"@, "slot/port"@, "slot port"@]),
        ("is_external"@, seq!["is_external"@, "external"@, "ext"@]),
        ("link_speed"@, seq!["link_speed"@, "speed"@, "bandwidth"@, "speed (gb)"@, "speed(gb)"@]),
        ("link_group_lag_mode"@, seq!["link_group_lag_mode"@, "lag_mode"@, "bond_mode"@, "mode"@, "lacpneeded"@, "lacp needed"@]),
        ("link_group_ct_names"@, seq!["link_group_ct_names"@, "ct"@, "cts"@, "connectivity_template"@]),
        ("server_tags"@, seq!["server_tags"@, "tags"@]),
        ("link_tags"@, seq!["link_tags"@, "tags"@]),
        ("comment"@, seq!["comment"@, "comments"@, "description"@, "notes"@]),
    ]
}

pub open spec fn variations_view(v: Seq<(String, Vec<String>)>) -> Seq<(Seq<char>, Seq<Seq<char>>)> {
    v.map_values(|p: (String, Vec<String>)| (p.0@, cells_view(p.1@)))
}

/// Header mappings with the row that holds the headers.
#[derive(Clone, Debug)]
pub struct ConversionMap {
    pub header_row: Option<u32>,
    pub mappings: FieldMap,
    pub field_variations: Option<Vec<(String, Vec<String>)>>,
}

/// The key of `m` whose trimmed, case-folded form is `t`, first in order.
pub open spec fn folded_lookup(m: Seq<(Seq<char>, Seq<char>)>, t: Seq<char>) -> Option<Seq<char>>
    decreases m.len(),
{
    if m.len() == 0 {
        None
    } else if lower_of(trimmed(m[0].0)) == t {
        Some(m[0].1)
    } else {
        folded_lookup(m.drop_first(), t)
    }
}

/// The field a header maps to: its own entry, else the first entry equal to
/// it once both are trimmed and case-folded.
pub open spec fn mapped_field(m: Seq<(Seq<char>, Seq<char>)>, h: Seq<char>) -> Option<Seq<char>> {
    match lookup(m, h) {
        Some(v) => Some(v),
        None => folded_lookup(m, lower_of(trimmed(h))),
    }
}

impl Default for ConversionMap {
    /// No mappings, headers in the first row, the built-in synonyms.
    fn default() -> (r: Self)
        ensures
            r.wf(),
            r.header_row == Some(1u32),
            r.mappings@.len() == 0,
            r.field_variations matches Some(v) && variations_view(v@) == default_variations(),
    {
        ConversionMap {
            header_row: Some(1),
            mappings: Vec::new(),
            field_variations: Some(Self::get_default_field_variations()),
        }
    }
}

impl ConversionMap {
    pub open spec fn wf(&self) -> bool {
        keys_unique(pairs_view(self.mappings@))
    }

    pub fn new(header_row: Option<u32>, mappings: FieldMap) -> (r: ConversionMap)
        requires
            keys_unique(pairs_view(mappings@)),
        ensures
            r.wf(),
            r.header_row == header_row,
            r.mappings@ == mappings@,
            r.field_variations matches Some(v) && variations_view(v@) == default_variations(),
    {
        ConversionMap {
            header_row,
            mappings,
            field_variations: Some(Self::get_default_field_variations()),
        }
    }

    /// The built-in synonym table.
    pub fn get_default_field_variations() -> (r: Vec<(String, Vec<String>)>)
        ensures
            variations_view(r@) == default_variations(),
    {
        let mut r: Vec<(String, Vec<String>)> = Vec::new();
        let mut v: Vec<String> = Vec::new();
        v.push(owned("server_label"));
        v.push(owned("server"));
        v.push(owned("server_name"));
        v.push(owned("hostname"));
        v.push(owned("host name"));
        v.push(owned("host_name"));
        r.push((owned("server_label"), v));
        assert(cells_view(r@[r@.len() - 1].1@) =~= default_variations()[r@.len() - 1].1);
        let mut v: Vec<String> = Vec::new();
        v.push(owned("switch_label"));
        v.push(owned("switch"));
        v.push(owned("switch_name"));
        v.push(owned("switch name"));
        v.push(owned("device"));
        r.push((owned("switch_label"), v));
        assert(cells_view(r@[r@.len() - 1].1@) =~= default_variations()[r@.len() - 1].1);
        let mut v: Vec<String> = Vec::new();
        v.push(owned("switch_ifname"));
        v.push(owned("switch_interface"));
        v.push(owned("switch_port"));
        v.push(owned("switch port"));
        v.push(owned("port"));
        v.push(owned("interface"));
        r.push((owned("switch_ifname"), v));
        assert(cells_view(r@[r@.len() - 1].1@) =~= default_variations()[r@.len() - 1].1);
        let mut v: Vec<String> = Vec::new();
        v.push(owned("server_ifname"));
        v.push(owned("server_interface"));
        v.push(owned("server_port"));
        v.push(owned("server port"));
        v.push(owned("nic"));
        v.push(owned("slot"));
        v.push(owned("slot/port"));
        v.push(owned("slot port"));
        r.push((owned("server_ifname"), v));
        assert(cells_view(r@[r@.len() - 1].1@) =~= default_variations()[r@.len() - 1].1);
        let mut v: Vec<String> = Vec::new();
        v.push(owned("is_external"));
        v.push(owned("external"));
        v.push(owned("ext"));
        r.push((owned("is_external"), v));
        assert(cells_view(r@[r@.len() - 1].1@) =~= default_variations()[r@.len() - 1].1);
        let mut v: Vec<String> = Vec::new();
        v.push(owned("link_speed"));
        v.push(owned("speed"));
        v.push(owned("bandwidth"));
        v.push(owned("speed (gb)"));
        v.push(owned("speed(gb)"));
        r.push((owned("link_speed"), v));
        assert(cells_view(r@[r@.len() - 1].1@) =~= default_variations()[r@.len() - 1].1);
        let mut v: Vec<String> = Vec::new();
        v.push(owned("link_group_lag_mode"));
        v.push(owned("lag_mode"));
        v.push(owned("bond_mode"));
        v.push(owned("mode"));
        v.push(owned("lacpneeded"));
        v.push(owned("lacp needed"));
        r.push((owned("link_group_lag_mode"), v));
        assert(cells_view(r@[r@.len() - 1].1@) =~= default_variations()[r@.len() - 1].1);
        let mut v: Vec<String> = Vec::new();
        v.push(owned("link_group_ct_names"));
        v.push(owned("ct"));
        v.push(owned("cts"));
        v.push(owned("connectivity_template"));
        r.push((owned("link_group_ct_names"), v));
        assert(cells_view(r@[r@.len() - 1].1@) =~= default_variations()[r@.len() - 1].1);
        let mut v: Vec<String> = Vec::new();
        v.push(owned("server_tags"));
        v.push(owned("tags"));
        r.push((owned("server_tags"), v));
        assert(cells_view(r@[r@.len() - 1].1@) =~= default_variations()[r@.len() - 1].1);
        let mut v: Vec<String> = Vec::new();
        v.push(owned("link_tags"));
        v.push(owned("tags"));
        r.push((owned("link_tags"), v));
        assert(cells_view(r@[r@.len() - 1].1@) =~= default_variations()[r@.len() - 1].1);
        let mut v: Vec<String> = Vec::new();
        v.push(owned("comment"));
        v.push(owned("comments"));
        v.push(owned("description"));
        v.push(owned("notes"));
        r.push((owned("comment"), v));
        assert(cells_view(r@[r@.len() - 1].1@) =~= default_variations()[r@.len() - 1].1);

        assert(variations_view(r@) =~= default_variations());
        r
    }

    /// The field mapped to a header.
    pub fn get_mapped_field(&self, excel_header: &str) -> (r: Option<String>)
        ensures
            match r {
                Some(s) => mapped_field(pairs_view(self.mappings@), excel_header@) == Some(s@),
                None => mapped_field(pairs_view(self.mappings@), excel_header@) is None,
            },
    {
        let found = find_key(&self.mappings, excel_header);
        match found {
            Some(i) => {
                assert(pairs_view(self.mappings@)[i as int].1 == self.mappings@[i as int].1@);
                assert(mapped_field(pairs_view(self.mappings@), excel_header@) == Some(self.mappings@[i as int].1@));
                return Some(self.mappings[i].1.clone());
            },
            None => {},
        }
        let th = trim(excel_header);
        let target = to_lowercase(th.as_str());
        let ghost pv = pairs_view(self.mappings@);
        let mut keys: Vec<String> = Vec::new();
        let mut i: usize = 0;
        while i < self.mappings.len()
            invariant
                i <= self.mappings@.len(),
                pv == pairs_view(self.mappings@),
                keys@.len() == i,
                forall|k: int| 0 <= k < i ==> #[trigger] keys@[k]@ == lower_of(trimmed(pv[k].0)),
            decreases self.mappings.len() - i,
        {
            assert(pv[i as int].0 == self.mappings@[i as int].0@);
            let tk = trim(self.mappings[i].0.as_str());
            keys.push(to_lowercase(tk.as_str()));
            i = i + 1;
        }
        proof {
            let fv = cells_view(keys@);
            assert forall|k: int| 0 <= k < pv.len() implies #[trigger] fv[k] == lower_of(trimmed(pv[k].0)) by {
                assert(fv[k] == keys@[k]@);
            }
            lemma_first_folded_trimmed(pv, fv, target@);
        }
        lookup_folded(&self.mappings, &keys, target.as_str())
    }

    /// Maps a header to a field, replacing any earlier mapping of that header.
    pub fn add_mapping(&mut self, excel_header: String, target_field: String)
        requires
            old(self).wf(),
        ensures
            final(self).wf(),
            lookup(pairs_view(final(self).mappings@), excel_header@) == Some(target_field@),
            forall|k: Seq<char>|
                k != excel_header@ ==> lookup(pairs_view(final(self).mappings@), k) == lookup(
                    pairs_view(old(self).mappings@),
                    k,
                ),
            final(self).header_row == old(self).header_row,
            final(self).field_variations == old(self).field_variations,
    {
        let ghost old_pv = pairs_view(self.mappings@);
        match find_key(&self.mappings, excel_header.as_str()) {
            Some(i) => {
                let ghost h = excel_header@;
                self.mappings.set(i, (excel_header, target_field));
                let ghost new_pv = pairs_view(self.mappings@);
                assert(new_pv =~= old_pv.update(i as int, (h, target_field@)));
                proof {
                    lemma_unique_lookup(new_pv, i as int);
                    assert forall|k: Seq<char>| k != h implies lookup(new_pv, k) == lookup(old_pv, k) by {
                        lemma_lookup_same_outside(old_pv, new_pv, k);
                    }
                }
            },
            None => {
                let ghost h = excel_header@;
                self.mappings.push((excel_header, target_field));
                let ghost new_pv = pairs_view(self.mappings@);
                assert(new_pv =~= old_pv.push((h, target_field@)));
                proof {
                    lemma_lookup_absent_keys(old_pv, h);
                    lemma_unique_lookup(new_pv, (new_pv.len() - 1) as int);
                    assert forall|k: Seq<char>| k != h implies lookup(new_pv, k) == lookup(old_pv, k) by {
                        lemma_lookup_push(old_pv, (h, target_field@), k);
                    }
                }
            },
        }
    }

    /// Drops the mapping of a header.
    pub fn remove_mapping(&mut self, excel_header: &str)
        requires
            old(self).wf(),
        ensures
            final(self).wf(),
            lookup(pairs_view(final(self).mappings@), excel_header@) is None,
            forall|k: Seq<char>|
                k != excel_header@ ==> lookup(pairs_view(final(self).mappings@), k) == lookup(
                    pairs_view(old(self).mappings@),
                    k,
                ),
            final(self).header_row == old(self).header_row,
            final(self).field_variations == old(self).field_variations,
    {
        let ghost old_pv = pairs_view(self.mappings@);
        match find_key(&self.mappings, excel_header) {
            Some(i) => {
                self.mappings.remove(i);
                let ghost new_pv = pairs_view(self.mappings@);
                assert(new_pv =~= old_pv.remove(i as int));
                proof {
                    lemma_unique_lookup(old_pv, i as int);
                    assert forall|j: int| 0 <= j < new_pv.len() implies new_pv[j].0 != excel_header@ by {
                        if j < i {
                            assert(new_pv[j] == old_pv[j]);
                        } else {
                            assert(new_pv[j] == old_pv[j + 1]);
                        }
                    }
                    lemma_lookup_absent(new_pv, excel_header@);
                    assert forall|k: Seq<char>| k != excel_header@ implies lookup(new_pv, k) == lookup(old_pv, k) by {
                        lemma_lookup_remove(old_pv, i as int, k);
                    }
                }
            },
            None => {},
        }
    }

    pub fn set_header_row(&mut self, row: u32)
        ensures
            final(self).header_row == Some(row),
            final(self).mappings@ == old(self).mappings@,
            final(self).field_variations == old(self).field_variations,
    {
        self.header_row = Some(row);
    }
}

pub proof fn lemma_first_folded_trimmed(
    m: Seq<(Seq<char>, Seq<char>)>,
    fk: Seq<Seq<char>>,
    t: Seq<char>,
)
    requires
        fk.len() == m.len(),
        forall|k: int| 0 <= k < m.len() ==> #[trigger] fk[k] == lower_of(trimmed(m[k].0)),
    ensures
        first_folded(m, fk, t) == folded_lookup(m, t),
    decreases m.len(),
{
    if m.len() > 0 {
        let (m2, f2) = (m.drop_first(), fk.drop_first());
        assert forall|k: int| 0 <= k < m2.len() implies #[trigger] f2[k] == lower_of(trimmed(m2[k].0)) by {
            assert(f2[k] == fk[k + 1]);
            assert(m2[k] == m[k + 1]);
        }
        assert(fk[0] == lower_of(trimmed(m[0].0)));
        lemma_first_folded_trimmed(m2, f2, t);
    }
}

/// Where keys are unique, the entry at `i` is what its key looks up.
pub proof fn lemma_unique_lookup(m: Seq<(Seq<char>, Seq<char>)>, i: int)
    requires
        0 <= i < m.len(),
        forall|a: int, b: int| 0 <= a < b < m.len() && b == i ==> m[a].0 != m[b].0,
    ensures
        lookup(m, m[i].0) == Some(m[i].1),
{
    lemma_lookup_index(m, m[i].0, i);
}

pub proof fn lemma_lookup_absent_keys(m: Seq<(Seq<char>, Seq<char>)>, k: Seq<char>)
    requires
        lookup(m, k) is None,
    ensures
        forall|j: int| 0 <= j < m.len() ==> m[j].0 != k,
    decreases m.len(),
{
    if m.len() > 0 {
        lemma_lookup_absent_keys(m.drop_first(), k);
        assert forall|j: int| 0 <= j < m.len() implies m[j].0 != k by {
            if j > 0 {
                assert(m[j] == m.drop_first()[j - 1]);
            }
        }
    }
}

pub proof fn lemma_lookup_push(m: Seq<(Seq<char>, Seq<char>)>, e: (Seq<char>, Seq<char>), k: Seq<char>)
    requires
        e.0 != k,
    ensures
        lookup(m.push(e), k) == lookup(m, k),
    decreases m.len(),
{
    if m.len() > 0 {
        assert(m.push(e).drop_first() =~= m.drop_first().push(e));
        lemma_lookup_push(m.drop_first(), e, k);
    } else {
        assert(m.push(e).drop_first() =~= m);
    }
}

pub proof fn lemma_lookup_same_outside(m: Seq<(Seq<char>, Seq<char>)>, n: Seq<(Seq<char>, Seq<char>)>, k: Seq<char>)
    requires
        m.len() == n.len(),
        forall|j: int| 0 <= j < m.len() ==> (m[j].0 == k <==> n[j].0 == k),
        forall|j: int| 0 <= j < m.len() && m[j].0 == k ==> m[j] == n[j],
    ensures
        lookup(m, k) == lookup(n, k),
    decreases m.len(),
{
    if m.len() > 0 {
        lemma_lookup_same_outside(m.drop_first(), n.drop_first(), k);
    }
}

pub proof fn lemma_lookup_remove(m: Seq<(Seq<char>, Seq<char>)>, i: int, k: Seq<char>)
    requires
        0 <= i < m.len(),
        m[i].0 != k,
    ensures
        lookup(m.remove(i), k) == lookup(m, k),
    decreases m.len(),
{
    if i > 0 {
        assert(m.remove(i).drop_first() =~= m.drop_first().remove(i - 1));
        lemma_lookup_remove(m.drop_first(), i - 1, k);
    } else {
        assert(m.remove(0) =~= m.drop_first());
    }
}

/// Converts headers with a simple conversion map: each header becomes its
/// mapped field, or stays as it is where nothing maps it.
pub struct ConversionService {}

impl ConversionService {
    pub fn new() -> (r: ConversionService) {
        ConversionService {  }
    }

    pub fn convert_headers_with_map(excel_headers: &Vec<String>, conversion_map: &ConversionMap) -> (r: FieldMap)
        ensures
            r@.len() == excel_headers@.len(),
            forall|i: int|
                0 <= i < r@.len() ==> (#[trigger] r@[i]).0@ == excel_headers@[i]@ && r@[i].1@ == match mapped_field(
                    pairs_view(conversion_map.mappings@),
                    excel_headers@[i]@,
                ) {
                    Some(f) => f,
                    None => excel_headers@[i]@,
                },
    {
        let mut r: FieldMap = Vec::new();
        let mut i: usize = 0;
        while i < excel_headers.len()
            invariant
                i <= excel_headers@.len(),
                r@.len() == i,
                forall|j: int|
                    0 <= j < i ==> (#[trigger] r@[j]).0@ == excel_headers@[j]@ && r@[j].1@ == match mapped_field(
                        pairs_view(conversion_map.mappings@),
                        excel_headers@[j]@,
                    ) {
                        Some(f) => f,
                        None => excel_headers@[j]@,
                    },
            decreases excel_headers.len() - i,
        {
            let h = excel_headers[i].clone();
            let f = match conversion_map.get_mapped_field(h.as_str()) {
                Some(f) => f,
                None => h.clone(),
            };
            r.push((h, f));
            i = i + 1;
        }
        r
    }
}

} // verus!
