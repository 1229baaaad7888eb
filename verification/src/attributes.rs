//! The attributes of one element: names in first-seen order, each once.

use vstd::prelude::*;
use vstd::string::StringSliceAdditionalSpecFns;
use vstd::utf8::{decode_utf8, valid_utf8};
use crate::budget::{saturated, vec_capacity, vector_capacity_bytes};
use crate::text::{bytes_eq, string_from_bytes};

verus! {

/// Most attributes kept for one element.
pub const MAX_ATTRIBUTES_PER_ELEMENT: usize = 256;

/// Abstract attribute set: the kept `(name, value)` pairs in order, and
/// whether any attribute was refused by a limit.
pub struct AttrModel {
    pub entries: Seq<(Seq<u8>, Seq<u8>)>,
    pub limit_exceeded: bool,
}

pub open spec fn has_name(entries: Seq<(Seq<u8>, Seq<u8>)>, name: Seq<u8>) -> bool {
    exists|i: int| 0 <= i < entries.len() && (#[trigger] entries[i]).0 == name
}

/// The value of the first attribute named `name` from position `k` on.
pub open spec fn lookup_from(entries: Seq<(Seq<u8>, Seq<u8>)>, name: Seq<u8>, k: int) -> Option<Seq<u8>>
    decreases entries.len() - k,
{
    if k < 0 || k >= entries.len() {
        None
    } else if entries[k].0 == name {
        Some(entries[k].1)
    } else {
        lookup_from(entries, name, k + 1)
    }
}

/// The value of the attribute named `name`, if any.
pub open spec fn lookup(entries: Seq<(Seq<u8>, Seq<u8>)>, name: Seq<u8>) -> Option<Seq<u8>> {
    lookup_from(entries, name, 0)
}

/// The bytes of all names and values.
pub open spec fn entries_text_bytes(entries: Seq<(Seq<u8>, Seq<u8>)>) -> int
    decreases entries.len(),
{
    if entries.len() == 0 {
        0
    } else {
        entries_text_bytes(entries.drop_last()) + entries.last().0.len() + entries.last().1.len()
    }
}

/// Bytes an attribute list holds: a slot per pair and every name and value,
/// capped at `usize::MAX`.
pub open spec fn attrs_retained_bytes(m: AttrModel) -> int {
    saturated(m.entries.len() * vstd::layout::size_of::<(Vec<u8>, Vec<u8>)>() + entries_text_bytes(m.entries))
}

pub proof fn lemma_text_bytes_nonneg(entries: Seq<(Seq<u8>, Seq<u8>)>)
    ensures
        entries_text_bytes(entries) >= 0,
    decreases entries.len(),
{
    if entries.len() > 0 {
        lemma_text_bytes_nonneg(entries.drop_last());
    }
}

pub open spec fn empty_attrs() -> AttrModel {
    AttrModel { entries: Seq::empty(), limit_exceeded: false }
}

/// Adding one attribute: a name already present keeps its first value; past
/// the per-element limit nothing is added and the limit is recorded.
pub open spec fn insert_attr(m: AttrModel, name: Seq<u8>, value: Seq<u8>) -> AttrModel {
    if has_name(m.entries, name) {
        m
    } else if m.entries.len() >= MAX_ATTRIBUTES_PER_ELEMENT {
        AttrModel { entries: m.entries, limit_exceeded: true }
    } else {
        AttrModel { entries: m.entries.push((name, value)), limit_exceeded: m.limit_exceeded }
    }
}

/// Names are unique and their number is within the limit.
pub open spec fn attrs_wf(m: AttrModel) -> bool {
    &&& m.entries.len() <= MAX_ATTRIBUTES_PER_ELEMENT
    &&& forall|i: int, j: int|
        0 <= i < j < m.entries.len() ==> (#[trigger] m.entries[i]).0 != (#[trigger] m.entries[j]).0
}

pub proof fn lemma_insert_keeps_wf(m: AttrModel, name: Seq<u8>, value: Seq<u8>)
    requires
        attrs_wf(m),
    ensures
        attrs_wf(insert_attr(m, name, value)),
{
    let r = insert_attr(m, name, value);
    if !has_name(m.entries, name) && m.entries.len() < MAX_ATTRIBUTES_PER_ELEMENT {
        assert forall|i: int, j: int| 0 <= i < j < r.entries.len() implies (#[trigger] r.entries[i]).0 != (#[trigger] r.entries[j]).0 by {
            if j == m.entries.len() {
                if r.entries[i].0 == name {
                    assert(m.entries[i].0 == name);
                }
            }
        }
    }
}

pub struct Attributes {
    entries: Vec<(Vec<u8>, Vec<u8>)>,
    limit_exceeded: bool,
}

impl View for Attributes {
    type V = AttrModel;

    closed spec fn view(&self) -> AttrModel {
        AttrModel {
            entries: self.entries@.map_values(|e: (Vec<u8>, Vec<u8>)| (e.0@, e.1@)),
            limit_exceeded: self.limit_exceeded,
        }
    }
}

impl Attributes {
    pub fn new() -> (r: Self)
        ensures
            r@ == empty_attrs(),
    {
        let r = Attributes { entries: Vec::new(), limit_exceeded: false };
        assert(r@.entries =~= Seq::<(Seq<u8>, Seq<u8>)>::empty());
        r
    }

    pub fn len(&self) -> (r: usize)
        ensures
            r == self@.entries.len(),
    {
        self.entries.len()
    }

    pub fn is_empty(&self) -> (r: bool)
        ensures
            r == (self@.entries.len() == 0),
    {
        self.entries.len() == 0
    }

    pub fn limit_exceeded(&self) -> (r: bool)
        ensures
            r == self@.limit_exceeded,
    {
        self.limit_exceeded
    }

    /// Records that an attribute was refused by a limit.
    pub fn mark_limit_exceeded(&mut self)
        ensures
            final(self)@ == (AttrModel { entries: old(self)@.entries, limit_exceeded: true }),
    {
        self.limit_exceeded = true;
    }

    /// Index of the attribute named `name`, if present.
    pub fn position(&self, name: &[u8]) -> (r: Option<usize>)
        ensures
            match r {
                Some(i) => i < self@.entries.len() && self@.entries[i as int].0 == name@
                    && lookup(self@.entries, name@) == Some(self@.entries[i as int].1),
                None => !has_name(self@.entries, name@) && lookup(self@.entries, name@) is None,
            },
    {
        let mut i: usize = 0;
        while i < self.entries.len()
            invariant
                i <= self.entries@.len(),
                forall|j: int| 0 <= j < i ==> (#[trigger] self@.entries[j]).0 != name@,
                lookup(self@.entries, name@) == lookup_from(self@.entries, name@, i as int),
            decreases self.entries@.len() - i,
        {
            if bytes_eq(self.entries[i].0.as_slice(), name) {
                return Some(i);
            }
            i = i + 1;
        }
        None
    }

    pub fn contains_name(&self, name: &[u8]) -> (r: bool)
        ensures
            r == has_name(self@.entries, name@),
    {
        self.position(name).is_some()
    }

    /// The value of the attribute named `name`, as bytes.
    pub fn value_of(&self, name: &[u8]) -> (r: Option<&Vec<u8>>)
        ensures
            match r {
                Some(v) => exists|i: int| 0 <= i < self@.entries.len() && self@.entries[i].0 == name@ && self@.entries[i].1 == v@,
                None => !has_name(self@.entries, name@),
            },
            r matches Some(v) ==> lookup(self@.entries, name@) == Some(v@),
            r is None ==> lookup(self@.entries, name@) is None,
    {
        match self.position(name) {
            Some(i) => Some(&self.entries[i].1),
            None => None,
        }
    }

    /// Adds the attribute unless its name is present or the limit is reached.
    pub fn insert_attribute(&mut self, name: Vec<u8>, value: Vec<u8>)
        ensures
            final(self)@ == insert_attr(old(self)@, name@, value@),
    {
        if self.contains_name(name.as_slice()) {
            return;
        }
        if self.entries.len() >= MAX_ATTRIBUTES_PER_ELEMENT {
            self.limit_exceeded = true;
            return;
        }
        let ghost nv = (name@, value@);
        self.entries.push((name, value));
        assert(self@.entries =~= old(self)@.entries.push(nv));
    }

    pub fn clear(&mut self)
        ensures
            final(self)@ == empty_attrs(),
    {
        self.entries = Vec::new();
        self.limit_exceeded = false;
        assert(self@.entries =~= Seq::<(Seq<u8>, Seq<u8>)>::empty());
    }

    /// The value of the attribute named `name`.
    pub fn get(&self, name: &str) -> (r: Option<String>)
        ensures
            r is Some <==> has_name(self@.entries, name.spec_bytes()),
            r matches Some(v) ==> exists|i: int| 0 <= i < self@.entries.len() && self@.entries[i].0 == name.spec_bytes()
                && (valid_utf8(self@.entries[i].1) ==> v@ == decode_utf8(self@.entries[i].1)),
    {
        match self.value_of(name.as_bytes()) {
            Some(v) => Some(string_from_bytes(v.as_slice())),
            None => None,
        }
    }

    pub fn contains_key(&self, name: &str) -> (r: bool)
        ensures
            r == has_name(self@.entries, name.spec_bytes()),
    {
        self.contains_name(name.as_bytes())
    }

    /// Bytes the list holds: its slots, and every name and value.
    pub(crate) fn retained_bytes(&self) -> (r: usize)
        ensures
            r == attrs_retained_bytes(self@),
    {
        let slot = core::mem::size_of::<(Vec<u8>, Vec<u8>)>();
        let ghost base: int = (self@.entries.len() * vstd::layout::size_of::<(Vec<u8>, Vec<u8>)>()) as int;
        let mut total: usize = match self.entries.len().checked_mul(slot) {
            Some(b) => b,
            None => usize::MAX,
        };
        assert(base >= 0) by (nonlinear_arith)
            requires
                base == self@.entries.len() * vstd::layout::size_of::<(Vec<u8>, Vec<u8>)>();
        assert(self@.entries.take(0) =~= Seq::<(Seq<u8>, Seq<u8>)>::empty());
        let mut i: usize = 0;
        while i < self.entries.len()
            invariant
                i <= self.entries@.len() == self@.entries.len(),
                base >= 0,
                base == self@.entries.len() * vstd::layout::size_of::<(Vec<u8>, Vec<u8>)>(),
                forall|j: int| 0 <= j < self.entries@.len() ==> (#[trigger] self@.entries[j]) == (self.entries@[j].0@, self.entries@[j].1@),
                total == saturated(base + entries_text_bytes(self@.entries.take(i as int))),
            decreases self.entries@.len() - i,
        {
            let ghost before = self@.entries.take(i as int);
            proof {
                lemma_text_bytes_nonneg(before);
                assert(self@.entries.take(i as int + 1).drop_last() =~= before);
            }
            total = total.saturating_add(self.entries[i].0.len()).saturating_add(self.entries[i].1.len());
            i = i + 1;
        }
        assert(self@.entries.take(i as int) =~= self@.entries);
        total
    }

    /// Bytes of capacity the list holds: its slots, and every name and value.
    pub(crate) fn retained_capacity(&self) -> (r: usize)
        ensures
            r >= attrs_retained_bytes(self@),
    {
        let ghost base: int = (self@.entries.len() * vstd::layout::size_of::<(Vec<u8>, Vec<u8>)>()) as int;
        let mut total: usize = vector_capacity_bytes(&self.entries);
        assert(base >= 0) by (nonlinear_arith)
            requires
                base == self@.entries.len() * vstd::layout::size_of::<(Vec<u8>, Vec<u8>)>();
        assert(self@.entries.take(0) =~= Seq::<(Seq<u8>, Seq<u8>)>::empty());
        let mut i: usize = 0;
        while i < self.entries.len()
            invariant
                i <= self.entries@.len() == self@.entries.len(),
                base >= 0,
                base == self@.entries.len() * vstd::layout::size_of::<(Vec<u8>, Vec<u8>)>(),
                forall|j: int| 0 <= j < self.entries@.len() ==> (#[trigger] self@.entries[j]) == (self.entries@[j].0@, self.entries@[j].1@),
                total >= saturated(base + entries_text_bytes(self@.entries.take(i as int))),
            decreases self.entries@.len() - i,
        {
            let ghost before = self@.entries.take(i as int);
            proof {
                lemma_text_bytes_nonneg(before);
                assert(self@.entries.take(i as int + 1).drop_last() =~= before);
            }
            total = total.saturating_add(vec_capacity(&self.entries[i].0)).saturating_add(vec_capacity(&self.entries[i].1));
            i = i + 1;
        }
        assert(self@.entries.take(i as int) =~= self@.entries);
        total
    }

    /// The `(name, value)` pairs, in order.
    pub fn pairs(&self) -> (r: Vec<(String, String)>)
        ensures
            r@.len() == self@.entries.len(),
            forall|i: int| 0 <= i < r@.len() ==> (valid_utf8(self@.entries[i].0) ==> (#[trigger] r@[i]).0@ == decode_utf8(self@.entries[i].0))
                && (valid_utf8(self@.entries[i].1) ==> r@[i].1@ == decode_utf8(self@.entries[i].1)),
    {
        let mut out: Vec<(String, String)> = Vec::new();
        let mut i: usize = 0;
        while i < self.entries.len()
            invariant
                i <= self.entries@.len(),
                out@.len() == i,
                forall|j: int| 0 <= j < i ==> (valid_utf8(self@.entries[j].0) ==> (#[trigger] out@[j]).0@ == decode_utf8(self@.entries[j].0))
                    && (valid_utf8(self@.entries[j].1) ==> out@[j].1@ == decode_utf8(self@.entries[j].1)),
            decreases self.entries@.len() - i,
        {
            let n = string_from_bytes(self.entries[i].0.as_slice());
            let v = string_from_bytes(self.entries[i].1.as_slice());
            out.push((n, v));
            i = i + 1;
        }
        out
    }
}

} // verus!
