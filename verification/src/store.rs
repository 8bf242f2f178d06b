//! Persistence layout: the keys under which prisms, members and bindings are
//! stored, and the records stored under them.

use vstd::prelude::*;

use crate::strmap::StrMap;
use crate::types::{Member, Prism, PrismBinding};

verus! {

/// Version segment of every key.
pub const DB_VERSION: &'static str = "v2.1";

/// The characters of each segment of a key.
pub open spec fn key_view(key: Seq<String>) -> Seq<Seq<char>> {
    key.map_values(|s: String| s@)
}

pub open spec fn member_key_of(id: Seq<char>) -> Seq<Seq<char>> {
    seq!["prism"@, DB_VERSION@, "member"@, id]
}

pub open spec fn prism_key_of(id: Seq<char>) -> Seq<Seq<char>> {
    seq!["prism"@, DB_VERSION@, "prism"@, id]
}

pub open spec fn binding_key_of(offer_id: Seq<char>) -> Seq<Seq<char>> {
    seq!["prism"@, DB_VERSION@, "bind"@, "bolt12"@, offer_id]
}

pub open spec fn all_prisms_key_of() -> Seq<Seq<char>> {
    seq!["prism"@, DB_VERSION@, "prism"@]
}

pub open spec fn all_bindings_key_of() -> Seq<Seq<char>> {
    seq!["prism"@, DB_VERSION@, "bind"@, "bolt12"@]
}

/// Records never share a key: each kind of key determines its id, keys of
/// different kinds differ, the prism prefix lists prism records and nothing
/// else, the binding prefix lists binding records and nothing else, and the
/// last segment of a key gives back its id.
pub proof fn lemma_store_keys_are_disjoint(a: Seq<char>, b: Seq<char>)
    ensures
        member_key_of(a) == member_key_of(b) <==> a == b,
        prism_key_of(a) == prism_key_of(b) <==> a == b,
        binding_key_of(a) == binding_key_of(b) <==> a == b,
        member_key_of(a) != prism_key_of(b),
        member_key_of(a) != binding_key_of(b),
        prism_key_of(a) != binding_key_of(b),
        all_prisms_key_of().is_prefix_of(prism_key_of(a)),
        !all_prisms_key_of().is_prefix_of(member_key_of(a)),
        !all_prisms_key_of().is_prefix_of(binding_key_of(a)),
        all_bindings_key_of().is_prefix_of(binding_key_of(a)),
        !all_bindings_key_of().is_prefix_of(member_key_of(a)),
        !all_bindings_key_of().is_prefix_of(prism_key_of(a)),
        prism_key_of(a).last() == a,
        binding_key_of(a).last() == a,
{
    reveal_strlit("member");
    reveal_strlit("prism");
    reveal_strlit("bind");
    assert("member"@ != "prism"@) by {
        assert("member"@.len() != "prism"@.len());
    }
    assert("member"@ != "bind"@) by {
        assert("member"@.len() != "bind"@.len());
    }
    assert("prism"@ != "bind"@) by {
        assert("prism"@[0] != "bind"@[0]);
    }
    if member_key_of(a) == member_key_of(b) {
        assert(member_key_of(a)[3] == member_key_of(b)[3]);
    }
    if prism_key_of(a) == prism_key_of(b) {
        assert(prism_key_of(a)[3] == prism_key_of(b)[3]);
    }
    if binding_key_of(a) == binding_key_of(b) {
        assert(binding_key_of(a)[4] == binding_key_of(b)[4]);
    }
    assert(member_key_of(a)[2] != prism_key_of(b)[2]);
    assert(member_key_of(a).len() != binding_key_of(b).len());
    assert(prism_key_of(a).len() != binding_key_of(b).len());
    assert(all_prisms_key_of() =~= prism_key_of(a).subrange(0, 3));
    assert(all_prisms_key_of()[2] != member_key_of(a)[2]);
    assert(all_prisms_key_of()[2] != binding_key_of(a)[2]);
    assert(all_bindings_key_of() =~= binding_key_of(a).subrange(0, 4));
    assert(all_bindings_key_of()[2] != member_key_of(a)[2]);
    assert(all_bindings_key_of()[2] != prism_key_of(a)[2]);
}

fn text(s: &str) -> (r: String)
    ensures
        r@ == s@,
{
    String::from_str(s)
}

/// Key of a member record.
pub fn member_key(id: &str) -> (key: Vec<String>)
    ensures
        key_view(key@) == member_key_of(id@),
{
    let key = vec![text("prism"), text(DB_VERSION), text("member"), text(id)];
    assert(key_view(key@) =~= seq!["prism"@, DB_VERSION@, "member"@, id@]);
    key
}

/// Key of a prism record.
pub fn prism_key(id: &str) -> (key: Vec<String>)
    ensures
        key_view(key@) == prism_key_of(id@),
{
    let key = vec![text("prism"), text(DB_VERSION), text("prism"), text(id)];
    assert(key_view(key@) =~= seq!["prism"@, DB_VERSION@, "prism"@, id@]);
    key
}

/// Key of the binding of a BOLT12 offer.
pub fn binding_key(offer_id: &str) -> (key: Vec<String>)
    ensures
        key_view(key@) == binding_key_of(offer_id@),
{
    let key = vec![text("prism"), text(DB_VERSION), text("bind"), text("bolt12"), text(offer_id)];
    assert(key_view(key@) =~= seq!["prism"@, DB_VERSION@, "bind"@, "bolt12"@, offer_id@]);
    key
}

/// Prefix of every prism record's key.
pub fn all_prisms_key() -> (key: Vec<String>)
    ensures
        key_view(key@) == all_prisms_key_of(),
{
    let key = vec![text("prism"), text(DB_VERSION), text("prism")];
    assert(key_view(key@) =~= seq!["prism"@, DB_VERSION@, "prism"@]);
    key
}

/// Prefix of every binding record's key.
pub fn all_bindings_key() -> (key: Vec<String>)
    ensures
        key_view(key@) == all_bindings_key_of(),
{
    let key = vec![text("prism"), text(DB_VERSION), text("bind"), text("bolt12")];
    assert(key_view(key@) =~= seq!["prism"@, DB_VERSION@, "bind"@, "bolt12"@]);
    key
}

/// The last segment of a key, or the empty text for an empty key.
pub fn last_key_segment(key: &Vec<String>) -> (s: String)
    ensures
        key@.len() == 0 ==> s@ == Seq::<char>::empty(),
        key@.len() > 0 ==> s@ == key@.last()@,
{
    if key.len() == 0 {
        String::new()
    } else {
        key[key.len() - 1].clone()
    }
}

/// A prism as stored: its members are stored separately and named by id.
pub struct PrismRecord {
    pub id: String,
    pub description: String,
    pub timestamp: u64,
    pub outlay_factor: i64,
    pub member_ids: Vec<String>,
}

impl PrismRecord {
    /// The record of `prism`: its fields, and its members' ids in order.
    pub fn from_prism(prism: &Prism) -> (r: PrismRecord)
        ensures
            r.id@ == prism.id@,
            r.description@ == prism.description@,
            r.timestamp == prism.timestamp,
            r.outlay_factor == prism.outlay_factor,
            r.member_ids@.len() == prism.members@.len(),
            forall|i: int| 0 <= i < prism.members@.len() ==> (#[trigger] r.member_ids@[i])@ == prism.members@[i].id@,
    {
        let n = prism.members.len();
        let mut member_ids: Vec<String> = Vec::new();
        let mut i: usize = 0;
        while i < n
            invariant
                n == prism.members@.len(),
                i <= n,
                member_ids@.len() == i,
                forall|j: int| 0 <= j < i ==> (#[trigger] member_ids@[j])@ == prism.members@[j].id@,
            decreases n - i,
        {
            member_ids.push(prism.members[i].id.clone());
            i = i + 1;
        }
        PrismRecord {
            id: prism.id.clone(),
            description: prism.description.clone(),
            timestamp: prism.timestamp,
            outlay_factor: prism.outlay_factor,
            member_ids,
        }
    }

    /// The prism this record describes, with its members as loaded.
    pub fn into_prism(self, members: Vec<Member>) -> (p: Prism)
        ensures
            p.id == self.id,
            p.description == self.description,
            p.timestamp == self.timestamp,
            p.outlay_factor == self.outlay_factor,
            p.members == members,
    {
        Prism {
            id: self.id,
            description: self.description,
            timestamp: self.timestamp,
            outlay_factor: self.outlay_factor,
            members,
        }
    }
}

/// A binding as stored: the offer id is the last segment of its key.
pub struct BindingRecord {
    pub prism_id: String,
    pub timestamp: u64,
    pub member_outlays: StrMap<i64>,
}

impl BindingRecord {
    /// The record of `binding`.
    pub fn from_binding(binding: &PrismBinding) -> (r: BindingRecord)
        ensures
            r.prism_id@ == binding.prism_id@,
            r.timestamp == binding.timestamp,
            r.member_outlays@ == binding.outlays@,
    {
        BindingRecord {
            prism_id: binding.prism_id.clone(),
            timestamp: binding.timestamp,
            member_outlays: binding.outlays.copied(),
        }
    }

    /// The binding of `offer_id` that this record describes.
    pub fn into_binding(self, offer_id: String) -> (b: PrismBinding)
        ensures
            b.offer_id == offer_id,
            b.prism_id == self.prism_id,
            b.timestamp == self.timestamp,
            b.outlays == self.member_outlays,
    {
        PrismBinding { offer_id, prism_id: self.prism_id, timestamp: self.timestamp, outlays: self.member_outlays }
    }
}

} // verus!
