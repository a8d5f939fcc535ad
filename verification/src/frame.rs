//! Registry of coordinate reference frames by frame identifier.

use vstd::prelude::*;
use std::collections::HashMap;
use crate::error::{Error, Result};
use crate::ids::FrameId;
use vstd::std_specs::iter::IteratorSpec;

verus! {

broadcast use vstd::std_specs::hash::group_hash_axioms;

/// A coordinate reference frame.
#[derive(Debug)]
pub struct FrameDescriptor {
    /// Frame name (e.g. "ECEF", "ENU").
    pub name: String,
    /// Datum (e.g. "WGS-84").
    pub datum: String,
    /// Free description.
    pub description: String,
    /// Whether the axes are right-handed.
    pub right_handed: bool,
    /// Bits of the base unit scale at tier 0, in metres (an IEEE-754 double).
    pub base_unit_bits: u64,
}

/// What a frame descriptor holds, as plain values.
pub struct FrameView {
    pub name: Seq<char>,
    pub datum: Seq<char>,
    pub description: Seq<char>,
    pub right_handed: bool,
    pub base_unit_bits: u64,
}

impl View for FrameDescriptor {
    type V = FrameView;

    open spec fn view(&self) -> FrameView {
        FrameView {
            name: self.name@,
            datum: self.datum@,
            description: self.description@,
            right_handed: self.right_handed,
            base_unit_bits: self.base_unit_bits,
        }
    }
}

/// Two descriptors describe the same frame: all but the description agree.
pub open spec fn same_frame(a: FrameView, b: FrameView) -> bool {
    &&& a.name == b.name
    &&& a.datum == b.datum
    &&& a.right_handed == b.right_handed
    &&& a.base_unit_bits == b.base_unit_bits
}

impl FrameDescriptor {
    /// A descriptor from its parts.
    pub fn new(name: &str, datum: &str, description: &str, right_handed: bool, base_unit_bits: u64) -> (r: Self)
        ensures
            r@.name == name@,
            r@.datum == datum@,
            r@.description == description@,
            r@.right_handed == right_handed,
            r@.base_unit_bits == base_unit_bits,
    {
        Self {
            name: name.to_owned(),
            datum: datum.to_owned(),
            description: description.to_owned(),
            right_handed,
            base_unit_bits,
        }
    }

    /// Whether `other` describes the same frame (the description aside).
    pub fn same_frame_as(&self, other: &FrameDescriptor) -> (r: bool)
        ensures
            r == same_frame(self@, other@),
            r == (self@.name == other@.name && self@.datum == other@.datum && self@.right_handed
                == other@.right_handed && self@.base_unit_bits == other@.base_unit_bits),
    {
        self.name == other.name && self.datum == other.datum
            && self.right_handed == other.right_handed && self.base_unit_bits == other.base_unit_bits
    }
}

/// Frames by identifier.
pub struct FrameRegistry {
    frames: HashMap<FrameId, FrameDescriptor>,
}

impl View for FrameRegistry {
    type V = Map<FrameId, FrameView>;

    closed spec fn view(&self) -> Map<FrameId, FrameView> {
        self.frames@.map_values(|d: FrameDescriptor| d@)
    }
}

/// The frame registered under 0 from the start: Earth-centred, Earth-fixed on WGS-84.
pub open spec fn default_frame(v: FrameView) -> bool {
    &&& v.name == "ECEF"@
    &&& v.datum == "WGS-84"@
    &&& v.description == "Earth-Centered Earth-Fixed"@
    &&& v.right_handed
    &&& v.base_unit_bits == 0x3FF0_0000_0000_0000
}

impl FrameRegistry {
    /// A registry holding only frame 0, Earth-centred Earth-fixed with a 1 m unit.
    pub fn new() -> (r: Self)
        ensures
            r@.dom() == set![0u8],
            default_frame(r@[0u8]),
    {
        let mut frames: HashMap<FrameId, FrameDescriptor> = HashMap::new();
        let ecef = FrameDescriptor::new("ECEF", "WGS-84", "Earth-Centered Earth-Fixed", true, 0x3FF0_0000_0000_0000);
        frames.insert(0, ecef);
        let r = Self { frames };
        proof {
            reveal_strlit("ECEF");
            reveal_strlit("WGS-84");
            reveal_strlit("Earth-Centered Earth-Fixed");
            assert(r@.dom() =~= set![0u8]);
        }
        r
    }

    /// Registers `desc` under `id`. Registering the same frame again is
    /// accepted and changes nothing; a different frame under a taken
    /// identifier is refused.
    pub fn register(&mut self, id: FrameId, desc: FrameDescriptor) -> (r: Result<()>)
        ensures
            !old(self)@.contains_key(id) ==> r is Ok && final(self)@ == old(self)@.insert(id, desc@),
            old(self)@.contains_key(id) && same_frame(old(self)@[id], desc@) ==> r is Ok && final(self)@
                == old(self)@,
            old(self)@.contains_key(id) && !same_frame(old(self)@[id], desc@) ==> r == Err::<(), Error>(
                Error::FrameConflict(id),
            ) && final(self)@ == old(self)@,
            old(self)@.contains_key(id) && (old(self)@[id].name != desc@.name || old(self)@[id].datum != desc@.datum
                || old(self)@[id].right_handed != desc@.right_handed || old(self)@[id].base_unit_bits
                != desc@.base_unit_bits) ==> r == Err::<(), Error>(Error::FrameConflict(id)),
            old(self)@.contains_key(id) && old(self)@[id].name == desc@.name && old(self)@[id].datum == desc@.datum
                && old(self)@[id].right_handed == desc@.right_handed && old(self)@[id].base_unit_bits
                == desc@.base_unit_bits ==> r is Ok,
    {
        match self.frames.get(&id) {
            Some(existing) => {
                if existing.same_frame_as(&desc) {
                    Ok(())
                } else {
                    Err(Error::FrameConflict(id))
                }
            },
            None => {
                self.frames.insert(id, desc);
                proof {
                    assert(self@ =~= old(self)@.insert(id, desc@));
                }
                Ok(())
            },
        }
    }

    /// The frame registered under `id`.
    pub fn get(&self, id: FrameId) -> (r: Result<&FrameDescriptor>)
        ensures
            self@.contains_key(id) ==> (r matches Ok(d) && d@ == self@[id]),
            !self@.contains_key(id) ==> r == Err::<&FrameDescriptor, Error>(Error::InvalidFrameID(id)),
    {
        match self.frames.get(&id) {
            Some(d) => Ok(d),
            None => Err(Error::InvalidFrameID(id)),
        }
    }

    /// Whether a frame is registered under `id`.
    pub fn contains(&self, id: FrameId) -> (r: bool)
        ensures
            r == self@.contains_key(id),
    {
        self.frames.contains_key(&id)
    }

    /// The registered identifiers, each once, in no particular order.
    pub fn ids(&self) -> (r: Vec<FrameId>)
        ensures
            r@.to_set() == self@.dom(),
            r@.no_duplicates(),
    {
        let ghost all: Seq<u8> = vstd::std_specs::hash::spec_keys_iter(&self.frames).remaining().unref();
        let mut out: Vec<FrameId> = Vec::new();
        for k in it: self.frames.keys()
            invariant
                it.seq().unref() == all,
                out@ == all.take(it.index() as int),
        {
            assert(all.take(it.index() as int + 1) == all.take(it.index() as int).push(*k));
            out.push(*k);
        }
        assert(all.take(all.len() as int) == all);
        proof {
            assert(self@.dom() =~= self.frames@.dom());
        }
        out
    }
}

/// Reading back a frame registered under a free identifier gives that frame,
/// and it is the same frame as any descriptor that agrees with it but for the
/// description, so registering such a descriptor afterwards is accepted.
pub proof fn lemma_register_then_get(m: Map<FrameId, FrameView>, id: FrameId, d: FrameView, e: FrameView)
    requires
        same_frame(d, e),
    ensures
        !m.contains_key(id) ==> m.insert(id, d)[id] == d,
        !m.contains_key(id) ==> same_frame(m.insert(id, d)[id], e),
{
}

} // verus!
