//! Selection of a font's Unicode name records and the usability rule.

use std::collections::HashMap;
use vstd::prelude::*;

verus! {

broadcast use vstd::std_specs::hash::group_hash_axioms;

/// The name identifier of the font family name.
pub const FAMILY_NAME_ID: u16 = 1;

/// One record of a font's naming table, as the table accessor reports it.
#[derive(Debug)]
pub struct NameRecord {
    pub name_id: u16,
    /// Whether the record's platform and encoding decode to Unicode text.
    pub is_unicode: bool,
    /// The decoded text, where decoding succeeded.
    pub value: Option<String>,
}

/// A record as plain values: identifier, Unicode flag and decoded text.
pub open spec fn record_view(n: NameRecord) -> (u16, bool, Option<Seq<char>>) {
    (
        n.name_id,
        n.is_unicode,
        match n.value {
            Some(s) => Some(s@),
            None => None,
        },
    )
}

/// The names that the records give: each Unicode record with decoded text
/// maps its identifier to that text, a later record overwriting an earlier
/// one with the same identifier.
pub open spec fn name_map(recs: Seq<(u16, bool, Option<Seq<char>>)>) -> Map<u16, Seq<char>>
    decreases recs.len(),
{
    if recs.len() == 0 {
        Map::empty()
    } else {
        let m = name_map(recs.drop_last());
        let (id, unicode, value) = recs.last();
        match value {
            Some(s) if unicode => m.insert(id, s),
            _ => m,
        }
    }
}

/// A font is usable when it has a name, and its family name is not the
/// literal text `false`.
pub open spec fn usable(m: Map<u16, Seq<char>>) -> bool {
    &&& !m.is_empty()
    &&& !(m.contains_key(FAMILY_NAME_ID) && m[FAMILY_NAME_ID] == seq!['f', 'a', 'l', 's', 'e'])
}

/// The map of strings `m` holds the texts of `v`, key for key.
pub open spec fn same_names(m: Map<u16, String>, v: Map<u16, Seq<char>>) -> bool {
    &&& m.dom() == v.dom()
    &&& forall|k: u16| #[trigger] m.contains_key(k) ==> m[k]@ == v[k]
}

/// The views of a list of records.
pub open spec fn records_view(recs: Seq<NameRecord>) -> Seq<(u16, bool, Option<Seq<char>>)> {
    recs.map_values(|n: NameRecord| record_view(n))
}

/// Builds the name map of the records.
pub fn collect_names(records: &Vec<NameRecord>) -> (r: HashMap<u16, String>)
    ensures
        same_names(r@, name_map(records_view(records@))),
{
    let mut names: HashMap<u16, String> = HashMap::new();
    let mut i: usize = 0;
    while i < records.len()
        invariant
            i <= records.len(),
            same_names(names@, name_map(records_view(records@).take(i as int))),
        decreases records.len() - i,
    {
        let rec = &records[i];
        let ghost before = records_view(records@).take(i as int);
        let ghost after = records_view(records@).take(i + 1);
        assert(after.drop_last() =~= before);
        assert(after.last() == record_view(*rec));
        if rec.is_unicode {
            match &rec.value {
                Some(value) => {
                    let v = value.clone();
                    names.insert(rec.name_id, v);
                },
                None => {},
            }
        }
        i += 1;
    }
    assert(records_view(records@).take(records.len() as int) =~= records_view(records@));
    names
}

/// The names of a font, or `None` where the font is not usable: it has no
/// Unicode name, or its family name is the text `false`.
pub fn usable_names(records: &Vec<NameRecord>) -> (r: Option<HashMap<u16, String>>)
    ensures
        r is Some <==> usable(name_map(records_view(records@))),
        r matches Some(m) ==> same_names(m@, name_map(records_view(records@))),
{
    let names = collect_names(records);
    let ghost v = name_map(records_view(records@));
    if names.is_empty() {
        assert(v.dom() =~= names@.dom());
        return None;
    }
    assert(v.dom() =~= names@.dom());
    match names.get(&FAMILY_NAME_ID) {
        Some(family) => {
            let sentinel = "false".to_owned();
            proof {
                reveal_strlit("false");
                assert(sentinel@ =~= seq!['f', 'a', 'l', 's', 'e']);
            }
            assert(family@ == v[FAMILY_NAME_ID]);
            if *family == sentinel {
                return None;
            }
        },
        None => {},
    }
    Some(names)
}

/// Records that hold no Unicode record give no name.
pub proof fn lemma_no_unicode_record_no_name(recs: Seq<(u16, bool, Option<Seq<char>>)>)
    requires
        forall|i: int| 0 <= i < recs.len() ==> !(#[trigger] recs[i]).1,
    ensures
        name_map(recs).is_empty(),
    decreases recs.len(),
{
    if recs.len() > 0 {
        lemma_no_unicode_record_no_name(recs.drop_last());
        assert(!recs[recs.len() - 1].1);
    }
}

/// The name under `id` is the text of the last Unicode record with decoded
/// text under `id`.
pub proof fn lemma_last_record_wins(recs: Seq<(u16, bool, Option<Seq<char>>)>, id: u16, j: int)
    requires
        0 <= j < recs.len(),
        recs[j].0 == id,
        recs[j].1,
        recs[j].2 is Some,
        forall|i: int|
            j < i < recs.len() ==> !((#[trigger] recs[i]).0 == id && recs[i].1 && recs[i].2 is Some),
    ensures
        name_map(recs).contains_key(id),
        name_map(recs)[id] == recs[j].2.unwrap(),
    decreases recs.len(),
{
    let last = recs.len() - 1;
    if j < last {
        assert(!(recs[last].0 == id && recs[last].1 && recs[last].2 is Some));
        lemma_last_record_wins(recs.drop_last(), id, j);
    }
}

} // verus!
