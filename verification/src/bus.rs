//! Extra named mix buses: ids, destinations, and the per-sink bus table.

use vstd::prelude::*;
use vstd::string::StringSliceAdditionalSpecFns;

use crate::limits::MAX_BUSES;
use crate::text::same_text;

verus! {

/// Index of an extra named bus (`0..MAX_BUSES`).
#[derive(Clone, Copy, Debug, PartialEq, Eq, Hash)]
pub struct BusId(u8);

impl View for BusId {
    type V = nat;

    closed spec fn view(&self) -> nat {
        self.0 as nat
    }
}

impl BusId {
    pub(crate) fn new(index: u8) -> (r: Self)
        ensures
            r@ == index as nat,
    {
        BusId(index)
    }

    /// Zero-based slot among extra buses.
    pub fn index(self) -> (r: usize)
        ensures
            r as nat == self@,
    {
        self.0 as usize
    }
}

/// Mix destination: implicit master or a named extra bus.
#[derive(Clone, Copy, Debug, PartialEq, Eq, Hash)]
pub enum MixDest {
    /// Context sink / master dry store.
    Master,
    /// Extra named bus created on the sink.
    Bus(BusId),
}

impl Default for MixDest {
    fn default() -> (r: Self)
        ensures
            r == MixDest::Master,
    {
        MixDest::Master
    }
}

/// Failure creating or mixing onto a bus.
#[derive(Debug, Clone, Copy, PartialEq, Eq)]
pub enum BusError {
    /// Creating another extra bus would exceed [`MAX_BUSES`].
    BusFull {
        /// Maximum extra named buses (not counting master).
        max: usize,
        /// Number of extra buses the rejected create would have produced.
        got: usize,
    },
    /// Empty name or reserved `"master"`.
    InvalidName,
    /// Destination is not a live bus on this sink.
    UnknownBus,
}

/// ASCII lowercase of a byte.
pub open spec fn ascii_lower(b: u8) -> u8 {
    if 65 <= b <= 90 {
        (b + 32) as u8
    } else {
        b
    }
}

/// The bytes `master`.
pub open spec fn master_bytes() -> Seq<u8> {
    seq![109u8, 97u8, 115u8, 116u8, 101u8, 114u8]
}

/// `b` spells `master` in any ASCII case.
pub open spec fn is_master(b: Seq<u8>) -> bool {
    b.len() == 6 && forall|k: int| 0 <= k < 6 ==> ascii_lower(#[trigger] b[k]) == master_bytes()[k]
}

/// A bus name is accepted unless it is empty or `master` in any ASCII case.
pub open spec fn valid_bus_name(name: &str) -> bool {
    name@.len() > 0 && !is_master(name.spec_bytes())
}

/// Empty name or reserved `"master"` (any ASCII case) is `InvalidName`.
pub fn validate_name(name: &str) -> (r: Result<(), BusError>)
    ensures
        r is Ok <==> valid_bus_name(name),
        r is Err ==> r == Err::<(), BusError>(BusError::InvalidName),
{
    if name.is_empty() {
        return Err(BusError::InvalidName);
    }
    let bytes = name.as_bytes();
    if bytes.len() != 6 {
        return Ok(());
    }
    let master: [u8; 6] = [109, 97, 115, 116, 101, 114];
    let mut k: usize = 0;
    while k < 6
        invariant
            0 <= k <= 6,
            bytes@.len() == 6,
            bytes@ == name.spec_bytes(),
            master@ == master_bytes(),
            forall|j: int| 0 <= j < k ==> ascii_lower(#[trigger] bytes@[j]) == master_bytes()[j],
        decreases 6 - k,
    {
        let b = bytes[k];
        let lower = if b >= 65 && b <= 90 {
            b + 32
        } else {
            b
        };
        if lower != master[k] {
            assert(ascii_lower(bytes@[k as int]) != master_bytes()[k as int]);
            return Ok(());
        }
        k = k + 1;
    }
    Err(BusError::InvalidName)
}

/// One occupied bus slot: its name and per-bus data.
#[derive(Debug)]
pub struct BusSlot<T> {
    pub name: String,
    pub data: T,
}

/// Fixed table of [`MAX_BUSES`] named slots.
#[derive(Debug)]
pub struct BusTable<T> {
    slots: Vec<Option<BusSlot<T>>>,
}

/// Slot `e` is occupied and named `name`.
pub open spec fn slot_named<T>(e: Option<BusSlot<T>>, name: Seq<char>) -> bool {
    e matches Some(s) && s.name@ == name
}

/// Index of the first slot in `e[..i]` named `name`.
pub open spec fn first_named<T>(e: Seq<Option<BusSlot<T>>>, name: Seq<char>, i: int) -> Option<int>
    decreases i,
{
    if i <= 0 {
        None
    } else {
        match first_named(e, name, i - 1) {
            Some(j) => Some(j),
            None => if slot_named(e[i - 1], name) {
                Some(i - 1)
            } else {
                None
            },
        }
    }
}

/// Index of the first empty slot in `e[..i]`.
pub open spec fn first_free<T>(e: Seq<Option<BusSlot<T>>>, i: int) -> Option<int>
    decreases i,
{
    if i <= 0 {
        None
    } else {
        match first_free(e, i - 1) {
            Some(j) => Some(j),
            None => if e[i - 1] is None {
                Some(i - 1)
            } else {
                None
            },
        }
    }
}

/// Indices of the occupied slots in `e[..i]`, in order.
pub open spec fn occupied_upto<T>(e: Seq<Option<BusSlot<T>>>, i: int) -> Seq<int>
    decreases i,
{
    if i <= 0 {
        Seq::empty()
    } else if e[i - 1] is Some {
        occupied_upto(e, i - 1).push(i - 1)
    } else {
        occupied_upto(e, i - 1)
    }
}

/// What `ensure(name)` does to a table whose slots are `e0`: result and new slots `e1`.
pub open spec fn ensure_post<T>(
    e0: Seq<Option<BusSlot<T>>>,
    name: Seq<char>,
    name_ok: bool,
    r: Result<nat, BusError>,
    e1: Seq<Option<BusSlot<T>>>,
) -> bool {
    if !name_ok {
        r == Err::<nat, BusError>(BusError::InvalidName) && e1 == e0
    } else {
        match first_named(e0, name, e0.len() as int) {
            Some(i) => r == Ok::<nat, BusError>(i as nat) && e1 == e0,
            None => match first_free(e0, e0.len() as int) {
                Some(i) => r == Ok::<nat, BusError>(i as nat) && e1.len() == e0.len() && slot_named(
                    e1[i],
                    name,
                ) && forall|j: int| 0 <= j < e0.len() && j != i ==> e1[j] == e0[j],
                None => r == Err::<nat, BusError>(
                    BusError::BusFull { max: MAX_BUSES, got: (MAX_BUSES + 1) as usize },
                ) && e1 == e0,
            },
        }
    }
}

/// A table operation's result with the id taken by its index.
pub open spec fn id_result(r: Result<BusId, BusError>) -> Result<nat, BusError> {
    match r {
        Ok(id) => Ok(id@),
        Err(e) => Err(e),
    }
}

/// Lemmas about `first_named`.
proof fn lemma_first_named<T>(e: Seq<Option<BusSlot<T>>>, name: Seq<char>, i: int)
    requires
        0 <= i <= e.len(),
    ensures
        first_named(e, name, i) matches Some(j) ==> 0 <= j < i && slot_named(e[j], name) && forall|
            k: int,
        | 0 <= k < j ==> !slot_named(#[trigger] e[k], name),
        first_named(e, name, i) is None ==> forall|k: int|
            0 <= k < i ==> !slot_named(#[trigger] e[k], name),
    decreases i,
{
    if i > 0 {
        lemma_first_named(e, name, i - 1);
    }
}

/// Once found, the first named slot stays the first as the prefix grows.
proof fn lemma_first_named_stable<T>(e: Seq<Option<BusSlot<T>>>, name: Seq<char>, i: int, n: int)
    requires
        0 <= i <= n,
        first_named(e, name, i) is Some,
    ensures
        first_named(e, name, n) == first_named(e, name, i),
    decreases n - i,
{
    if n > i {
        lemma_first_named_stable(e, name, i, n - 1);
    }
}

/// Once found, the first free slot stays the first as the prefix grows.
proof fn lemma_first_free_stable<T>(e: Seq<Option<BusSlot<T>>>, i: int, n: int)
    requires
        0 <= i <= n,
        first_free(e, i) is Some,
    ensures
        first_free(e, n) == first_free(e, i),
    decreases n - i,
{
    if n > i {
        lemma_first_free_stable(e, i, n - 1);
    }
}

/// Lemmas about `first_free`.
proof fn lemma_first_free<T>(e: Seq<Option<BusSlot<T>>>, i: int)
    requires
        0 <= i <= e.len(),
    ensures
        first_free(e, i) matches Some(j) ==> 0 <= j < i && e[j] is None && forall|k: int|
            0 <= k < j ==> (#[trigger] e[k]) is Some,
        first_free(e, i) is None ==> forall|k: int| 0 <= k < i ==> (#[trigger] e[k]) is Some,
    decreases i,
{
    if i > 0 {
        lemma_first_free(e, i - 1);
    }
}

/// `first_named` only depends on the slots it reads.
proof fn lemma_first_named_same<T>(
    e: Seq<Option<BusSlot<T>>>,
    f: Seq<Option<BusSlot<T>>>,
    name: Seq<char>,
    i: int,
)
    requires
        0 <= i <= e.len(),
        0 <= i <= f.len(),
        forall|k: int| 0 <= k < i ==> slot_named(e[k], name) == slot_named(f[k], name),
    ensures
        first_named(e, name, i) == first_named(f, name, i),
    decreases i,
{
    if i > 0 {
        lemma_first_named_same(e, f, name, i - 1);
    }
}

/// After `ensure(name)` returns a slot, looking `name` up finds that slot.
pub proof fn lemma_ensure_then_lookup<T>(
    e0: Seq<Option<BusSlot<T>>>,
    name: Seq<char>,
    name_ok: bool,
    i: nat,
    e1: Seq<Option<BusSlot<T>>>,
)
    requires
        e0.len() == MAX_BUSES,
        ensure_post(e0, name, name_ok, Ok(i), e1),
    ensures
        first_named(e1, name, e1.len() as int) == Some(i as int),
        e1.len() == e0.len(),
{
    lemma_first_named(e0, name, e0.len() as int);
    match first_named(e0, name, e0.len() as int) {
        Some(j) => {},
        None => {
            lemma_first_free(e0, e0.len() as int);
            lemma_first_named_same(e0, e1, name, i as int);
            lemma_first_named(e0, name, i as int);
            assert(first_named(e1, name, i as int) is None);
            assert(first_named(e1, name, i as int + 1) == Some(i as int));
            lemma_first_named_stable(e1, name, i as int + 1, e1.len() as int);
        },
    }
}

/// Asking for the same bus twice gives the same id and leaves the table as the
/// first call left it.
pub proof fn lemma_ensure_idempotent<T>(
    e0: Seq<Option<BusSlot<T>>>,
    name: Seq<char>,
    name_ok: bool,
    i: nat,
    e1: Seq<Option<BusSlot<T>>>,
    r2: Result<nat, BusError>,
    e2: Seq<Option<BusSlot<T>>>,
)
    requires
        e0.len() == MAX_BUSES,
        ensure_post(e0, name, name_ok, Ok(i), e1),
        ensure_post(e1, name, name_ok, r2, e2),
    ensures
        r2 == Ok::<nat, BusError>(i),
        e2 == e1,
{
    lemma_ensure_then_lookup(e0, name, name_ok, i, e1);
}

/// A valid new name is refused as full only when every slot is taken, and a
/// refused name leaves every slot as it was.
pub proof fn lemma_ensure_full_only_when_full<T>(
    e0: Seq<Option<BusSlot<T>>>,
    name: Seq<char>,
    e1: Seq<Option<BusSlot<T>>>,
    max: usize,
    got: usize,
)
    requires
        e0.len() == MAX_BUSES,
        ensure_post(e0, name, true, Err(BusError::BusFull { max, got }), e1),
    ensures
        forall|k: int| 0 <= k < MAX_BUSES ==> (#[trigger] e0[k]) is Some,
        e1 == e0,
        max == MAX_BUSES,
        got == MAX_BUSES + 1,
{
    lemma_first_free(e0, e0.len() as int);
}

impl<T> BusTable<T> {
    /// The slots, occupied or empty.
    pub closed spec fn entries(&self) -> Seq<Option<BusSlot<T>>> {
        self.slots@
    }

    /// The table has exactly [`MAX_BUSES`] slots.
    pub open spec fn wf(&self) -> bool {
        self.entries().len() == MAX_BUSES
    }

    /// Empty table of [`MAX_BUSES`] slots.
    pub fn new() -> (r: Self)
        ensures
            r.wf(),
            forall|i: int| 0 <= i < MAX_BUSES ==> (#[trigger] r.entries()[i]) is None,
    {
        let mut slots: Vec<Option<BusSlot<T>>> = Vec::new();
        let mut i: usize = 0;
        while i < MAX_BUSES
            invariant
                0 <= i <= MAX_BUSES,
                slots@.len() == i,
                forall|j: int| 0 <= j < i ==> (#[trigger] slots@[j]) is None,
            decreases MAX_BUSES - i,
        {
            slots.push(None);
            i = i + 1;
        }
        BusTable { slots }
    }

    /// Id of the first slot named `name`, if any.
    pub fn id_of(&self, name: &str) -> (r: Option<BusId>)
        requires
            self.wf(),
        ensures
            match first_named(self.entries(), name@, MAX_BUSES as int) {
                Some(i) => r matches Some(id) && id@ == i,
                None => r is None,
            },
    {
        let mut i: usize = 0;
        while i < self.slots.len()
            invariant
                0 <= i <= self.slots@.len(),
                self.wf(),
                first_named(self.entries(), name@, i as int) is None,
            decreases self.slots@.len() - i,
        {
            match &self.slots[i] {
                Some(slot) => {
                    if same_text(slot.name.as_str(), name) {
                        proof {
                            assert(first_named(self.entries(), name@, i + 1) == Some(i as int));
                            lemma_first_named_stable(self.entries(), name@, i + 1, MAX_BUSES as int);
                        }
                        return Some(BusId::new(i as u8));
                    }
                },
                None => {},
            }
            i = i + 1;
        }
        None
    }

    /// Create or get the bus named `name`.
    ///
    /// An existing name keeps its id; a new name takes the first empty slot,
    /// with `T::default()` as its data.
    /// Empty or reserved names are `InvalidName`; a new name on a full table is
    /// `BusFull`. On error the table is unchanged.
    pub fn ensure(&mut self, name: &str) -> (r: Result<BusId, BusError>) where T: Default
        requires
            old(self).wf(),
        ensures
            final(self).wf(),
            ensure_post(
                old(self).entries(),
                name@,
                valid_bus_name(name),
                id_result(r),
                final(self).entries(),
            ),
            valid_bus_name(name) && first_named(old(self).entries(), name@, MAX_BUSES as int) is None
                ==> match r {
                Ok(id) => id@ < MAX_BUSES && (final(self).entries()[id@ as int] matches Some(s)
                    && call_ensures(T::default, (), s.data)),
                Err(_) => true,
            },
    {
        match validate_name(name) {
            Ok(()) => {},
            Err(e) => {
                return Err(e);
            },
        }
        if let Some(id) = self.id_of(name) {
            return Ok(id);
        }
        let ghost e0 = self.entries();
        let mut i: usize = 0;
        while i < self.slots.len()
            invariant
                0 <= i <= self.slots@.len(),
                self.wf(),
                self.entries() == e0,
                e0 == old(self).entries(),
                valid_bus_name(name),
                first_named(e0, name@, MAX_BUSES as int) is None,
                first_free(e0, i as int) is None,
            decreases self.slots@.len() - i,
        {
            if self.slots[i].is_none() {
                proof {
                    assert(first_free(e0, i + 1) == Some(i as int));
                    lemma_first_free_stable(e0, i + 1, MAX_BUSES as int);
                }
                let data = T::default();
                let slot = BusSlot { name: name.to_owned(), data };
                assert(slot_named(Some(slot), name@));
                self.slots.set(i, Some(slot));
                assert(self.entries() == e0.update(i as int, Some(slot)));
                return Ok(BusId::new(i as u8));
            }
            i = i + 1;
        }
        Err(BusError::BusFull { max: MAX_BUSES, got: MAX_BUSES + 1 })
    }

    /// Mutable slot `id`, when it is occupied.
    pub fn get_mut(&mut self, id: BusId) -> (r: Option<&mut BusSlot<T>>)
        ensures
            match r {
                Some(s) => id@ < old(self).entries().len() && old(self).entries()[id@ as int]
                    == Some(*s) && final(self).entries() == old(self).entries().update(
                    id@ as int,
                    Some(*final(s)),
                ),
                None => (id@ >= old(self).entries().len() || old(self).entries()[id@ as int] is None)
                    && final(self).entries() == old(self).entries(),
            },
    {
        let idx = id.index();
        if idx < self.slots.len() {
            match &mut self.slots[idx] {
                Some(slot) => Some(slot),
                None => None,
            }
        } else {
            None
        }
    }

    /// Slot `id`, when it is occupied.
    pub fn get(&self, id: BusId) -> (r: Option<&BusSlot<T>>)
        ensures
            r matches Some(s) ==> id@ < self.entries().len() && self.entries()[id@ as int] == Some(
                *s,
            ),
            r is None ==> id@ >= self.entries().len() || self.entries()[id@ as int] is None,
    {
        let idx = id.index();
        if idx < self.slots.len() {
            match &self.slots[idx] {
                Some(slot) => Some(slot),
                None => None,
            }
        } else {
            None
        }
    }

    /// Id of slot `i`, when it is occupied: walks the buses in index order
    /// without building a list.
    pub fn slot_id(&self, i: usize) -> (r: Option<BusId>)
        requires
            self.wf(),
        ensures
            match r {
                Some(id) => i < MAX_BUSES && id@ == i && self.entries()[i as int] is Some,
                None => i >= MAX_BUSES || self.entries()[i as int] is None,
            },
    {
        if i < self.slots.len() && self.slots[i].is_some() {
            Some(BusId::new(i as u8))
        } else {
            None
        }
    }

    /// Occupied slots in index order, with their ids.
    pub fn iter(&self) -> (r: Vec<(BusId, &BusSlot<T>)>)
        requires
            self.wf(),
        ensures
            r@.len() == occupied_upto(self.entries(), self.entries().len() as int).len(),
            forall|k: int|
                0 <= k < r@.len() ==> (#[trigger] r@[k]).0@ == occupied_upto(
                    self.entries(),
                    self.entries().len() as int,
                )[k] && self.entries()[r@[k].0@ as int] == Some(*r@[k].1),
    {
        let mut out: Vec<(BusId, &BusSlot<T>)> = Vec::new();
        let mut i: usize = 0;
        while i < self.slots.len()
            invariant
                0 <= i <= self.slots@.len(),
                self.wf(),
                out@.len() == occupied_upto(self.entries(), i as int).len(),
                forall|k: int|
                    0 <= k < out@.len() ==> (#[trigger] out@[k]).0@ == occupied_upto(
                        self.entries(),
                        i as int,
                    )[k] && self.entries()[out@[k].0@ as int] == Some(*out@[k].1),
            decreases self.slots@.len() - i,
        {
            match &self.slots[i] {
                Some(slot) => {
                    out.push((BusId::new(i as u8), slot));
                },
                None => {},
            }
            i = i + 1;
        }
        out
    }
}

impl<T> Default for BusTable<T> {
    /// Empty table of [`MAX_BUSES`] slots.
    fn default() -> (r: Self)
        ensures
            r.wf(),
            forall|i: int| 0 <= i < MAX_BUSES ==> (#[trigger] r.entries()[i]) is None,
    {
        BusTable::new()
    }
}

} // verus!
