//! The per-file cache that outlives builds.
//!
//! A cell holds the last decoded value of a file with the fingerprint of the
//! bytes it was decoded from, and whether it was accessed in the current
//! build. A read goes:
//!
//! 1. `begin`: when the cell was already accessed in this build and holds a
//!    value, that value serves;
//! 2. otherwise the caller reads the bytes, fingerprints them and calls
//!    `observe`: when the fingerprint is unchanged and a value is held, that
//!    value serves;
//! 3. otherwise the caller decodes (handed the previous value, from `take`)
//!    and `store`s the result, which serves.
//!
//! `reset` starts a new build for the cell and keeps its contents.

use vstd::prelude::*;

verus! {

pub struct SlotCell<V> {
    data: Option<V>,
    fingerprint: u128,
    accessed: bool,
}

pub struct SlotModel<V> {
    pub data: Option<V>,
    pub fingerprint: u128,
    pub accessed: bool,
}

impl<V> View for SlotCell<V> {
    type V = SlotModel<V>;

    closed spec fn view(&self) -> SlotModel<V> {
        SlotModel { data: self.data, fingerprint: self.fingerprint, accessed: self.accessed }
    }
}

/// One read of a cell: the cell afterwards and the value that serves.
/// `fingerprint` is that of the bytes the read would find, `fresh` what
/// decoding them would give.
pub open spec fn serve<V>(m: SlotModel<V>, fingerprint: u128, fresh: V) -> (SlotModel<V>, V) {
    if m.accessed && m.data is Some {
        (m, m.data->Some_0)
    } else if m.fingerprint == fingerprint && m.data is Some {
        (SlotModel { accessed: true, ..m }, m.data->Some_0)
    } else {
        (SlotModel { data: Some(fresh), fingerprint, accessed: true }, fresh)
    }
}

pub open spec fn reset_model<V>(m: SlotModel<V>) -> SlotModel<V> {
    SlotModel { accessed: false, ..m }
}

impl<V> SlotCell<V> {
    pub fn new() -> (c: Self)
        ensures
            c@.data is None,
            c@.fingerprint == 0,
            !c@.accessed,
    {
        SlotCell { data: None, fingerprint: 0, accessed: false }
    }

    pub fn accessed(&self) -> (r: bool)
        ensures
            r == self@.accessed,
    {
        self.accessed
    }

    /// Starts a new build: the cell counts as not accessed; its value and
    /// fingerprint stay.
    pub fn reset(&mut self)
        ensures
            final(self)@ == reset_model(old(self)@),
    {
        self.accessed = false;
    }

    /// Marks the cell accessed; true when it had been accessed in this build
    /// already and holds a value, which then serves.
    pub fn begin(&mut self) -> (hit: bool)
        ensures
            hit == (old(self)@.accessed && old(self)@.data is Some),
            final(self)@ == (SlotModel { accessed: true, ..old(self)@ }),
    {
        let hit = self.accessed && self.data.is_some();
        self.accessed = true;
        hit
    }

    /// Records the fingerprint of the bytes just read; true when it is
    /// unchanged and the cell holds a value, which then serves.
    pub fn observe(&mut self, fingerprint: u128) -> (hit: bool)
        ensures
            hit == (old(self)@.fingerprint == fingerprint && old(self)@.data is Some),
            final(self)@ == (SlotModel { fingerprint, ..old(self)@ }),
    {
        let hit = self.fingerprint == fingerprint && self.data.is_some();
        self.fingerprint = fingerprint;
        hit
    }

    /// Takes the held value out, for decoding in place.
    pub fn take(&mut self) -> (r: Option<V>)
        ensures
            r == old(self)@.data,
            final(self)@ == (SlotModel { data: None, ..old(self)@ }),
    {
        self.data.take()
    }

    pub fn store(&mut self, value: V)
        ensures
            final(self)@ == (SlotModel { data: Some(value), ..old(self)@ }),
    {
        self.data = Some(value);
    }

    pub fn get(&self) -> (r: Option<&V>)
        ensures
            match self@.data {
                Some(v) => r is Some && *r->Some_0 == v,
                None => r is None,
            },
    {
        self.data.as_ref()
    }
}

/// The cache entry of one file: its parsed source and its raw bytes.
pub struct FileSlot<S, B> {
    pub source: SlotCell<S>,
    pub file: SlotCell<B>,
}

impl<S, B> FileSlot<S, B> {
    pub fn new() -> (s: Self)
        ensures
            s.source@.data is None && !s.source@.accessed,
            s.file@.data is None && !s.file@.accessed,
    {
        FileSlot { source: SlotCell::new(), file: SlotCell::new() }
    }

    /// Whether either cell was accessed in this build.
    pub fn accessed(&self) -> (r: bool)
        ensures
            r == (self.source@.accessed || self.file@.accessed),
    {
        self.source.accessed() || self.file.accessed()
    }

    pub fn reset(&mut self)
        ensures
            final(self).source@ == reset_model(old(self).source@),
            final(self).file@ == reset_model(old(self).file@),
    {
        self.source.reset();
        self.file.reset();
    }
}

/// Within one build a cell serves one value: a second read gives what the
/// first gave, whatever the file holds by then.
pub proof fn law_serve_within_build<V>(m: SlotModel<V>, fp1: u128, fresh1: V, fp2: u128, fresh2: V)
    ensures
        serve(serve(m, fp1, fresh1).0, fp2, fresh2).1 == serve(m, fp1, fresh1).1,
{
}

/// Across builds a cell serves its held value exactly when the bytes'
/// fingerprint is unchanged, and otherwise the freshly decoded one.
pub proof fn law_serve_across_builds<V>(m: SlotModel<V>, fingerprint: u128, fresh: V)
    requires
        m.data is Some,
    ensures
        serve(reset_model(m), fingerprint, fresh).1 == (if fingerprint == m.fingerprint {
            m.data->Some_0
        } else {
            fresh
        }),
{
}

} // verus!
