//! Sequence slots: rests, values, and nested groups that subdivide a slot,
//! and where each value falls.

use vstd::prelude::*;

verus! {

/// One slot in a sequence: a rest, a note/value, or a nested group.
///
/// Nested groups subdivide the parent slot equally.
#[derive(Debug, PartialEq, Eq)]
pub enum SequenceEvent {
    /// Skip this slot.
    Rest,
    /// Fire the sequence callback with this value.
    Value(String),
    /// Subdivide this slot across the inner events.
    Group(Vec<SequenceEvent>),
}

/// `b` holds the same slots as `a`: same kinds, same value texts, same nesting.
pub open spec fn same_event(a: SequenceEvent, b: SequenceEvent) -> bool
    decreases a,
{
    match a {
        SequenceEvent::Rest => b is Rest,
        SequenceEvent::Value(s) => b matches SequenceEvent::Value(t) && t@ == s@,
        SequenceEvent::Group(g) => b matches SequenceEvent::Group(h) && h@.len() == g@.len()
            && forall|i: int| 0 <= i < g@.len() ==> same_event(#[trigger] g@[i], h@[i]),
    }
}

impl Clone for SequenceEvent {
    fn clone(&self) -> (r: Self)
        ensures
            same_event(*self, r),
        decreases self,
    {
        match self {
            SequenceEvent::Rest => SequenceEvent::Rest,
            SequenceEvent::Value(v) => SequenceEvent::Value(v.clone()),
            SequenceEvent::Group(g) => {
                let mut out: Vec<SequenceEvent> = Vec::new();
                let mut i: usize = 0;
                while i < g.len()
                    invariant
                        0 <= i <= g@.len(),
                        *self == SequenceEvent::Group(*g),
                        out@.len() == i,
                        forall|j: int| 0 <= j < i ==> same_event(#[trigger] g@[j], out@[j]),
                    decreases g@.len() - i,
                {
                    proof {
                        assert(decreases_to!(*self => self->Group_0));
                        assert(decreases_to!(self->Group_0 => (self->Group_0)@));
                        assert(decreases_to!((self->Group_0)@ => (self->Group_0)@[i as int]));
                    }
                    out.push(g[i].clone());
                    i = i + 1;
                }
                SequenceEvent::Group(out)
            },
        }
    }
}

impl<'a> From<&'a str> for SequenceEvent {
    /// A value slot holding a copy of `value`.
    fn from(value: &'a str) -> (r: Self)
        ensures
            r matches SequenceEvent::Value(s) && s@ == value@,
    {
        SequenceEvent::Value(value.to_owned())
    }
}

/// The text of a `&str` is copied into a new `String`, which no spec value
/// names; what `from` returns is stated by its own `ensures`, over the view of
/// the text, and not through `from_spec`.
impl<'a> vstd::std_specs::convert::FromSpecImpl<&'a str> for SequenceEvent {
    open spec fn obeys_from_spec() -> bool {
        false
    }

    open spec fn from_spec(value: &'a str) -> SequenceEvent {
        SequenceEvent::Value(choose|s: String| s@ == value@)
    }
}

impl<'a> From<&'a String> for SequenceEvent {
    /// A value slot holding a copy of `value`.
    fn from(value: &'a String) -> (r: Self) {
        SequenceEvent::Value(value.clone())
    }
}

impl<'a> vstd::std_specs::convert::FromSpecImpl<&'a String> for SequenceEvent {
    open spec fn obeys_from_spec() -> bool {
        true
    }

    open spec fn from_spec(value: &'a String) -> SequenceEvent {
        SequenceEvent::Value(*value)
    }
}

impl<'a> From<Option<&'a str>> for SequenceEvent {
    /// A value slot holding a copy of the text, or a rest for `None`.
    fn from(value: Option<&'a str>) -> (r: Self)
        ensures
            match value {
                Some(t) => r matches SequenceEvent::Value(s) && s@ == t@,
                None => r is Rest,
            },
    {
        match value {
            Some(t) => SequenceEvent::Value(t.to_owned()),
            None => SequenceEvent::Rest,
        }
    }
}

/// As for `&str`, what `from` returns is stated by its own `ensures`.
impl<'a> vstd::std_specs::convert::FromSpecImpl<Option<&'a str>> for SequenceEvent {
    open spec fn obeys_from_spec() -> bool {
        false
    }

    open spec fn from_spec(value: Option<&'a str>) -> SequenceEvent {
        match value {
            Some(t) => SequenceEvent::Value(choose|s: String| s@ == t@),
            None => SequenceEvent::Rest,
        }
    }
}

impl From<String> for SequenceEvent {
    /// A value slot.
    fn from(value: String) -> (r: Self) {
        SequenceEvent::Value(value)
    }
}

impl vstd::std_specs::convert::FromSpecImpl<String> for SequenceEvent {
    open spec fn obeys_from_spec() -> bool {
        true
    }

    open spec fn from_spec(value: String) -> SequenceEvent {
        SequenceEvent::Value(value)
    }
}

impl From<Option<String>> for SequenceEvent {
    /// A value slot, or a rest for `None`.
    fn from(value: Option<String>) -> (r: Self) {
        match value {
            Some(v) => SequenceEvent::Value(v),
            None => SequenceEvent::Rest,
        }
    }
}

impl vstd::std_specs::convert::FromSpecImpl<Option<String>> for SequenceEvent {
    open spec fn obeys_from_spec() -> bool {
        true
    }

    open spec fn from_spec(value: Option<String>) -> SequenceEvent {
        match value {
            Some(v) => SequenceEvent::Value(v),
            None => SequenceEvent::Rest,
        }
    }
}

/// `r` is a group of `events`, each converted by `into` in order.
pub open spec fn is_group_of<T: Into<SequenceEvent>>(events: Seq<T>, r: SequenceEvent) -> bool {
    r matches SequenceEvent::Group(g) && g@.len() == events.len() && forall|i: int|
        0 <= i < events.len() ==> call_ensures(
            <T as Into<SequenceEvent>>::into,
            (events[i],),
            #[trigger] g@[i],
        )
}

impl<T: Into<SequenceEvent>> From<Vec<T>> for SequenceEvent {
    /// A nested group of `events`.
    fn from(events: Vec<T>) -> (r: Self)
        ensures
            is_group_of(events@, r),
    {
        SequenceEvent::group(events)
    }
}

/// Each item goes through its own `into`, so what `from` returns is stated by
/// its own `ensures`, through [`is_group_of`].
impl<T: Into<SequenceEvent>> vstd::std_specs::convert::FromSpecImpl<Vec<T>> for SequenceEvent {
    open spec fn obeys_from_spec() -> bool {
        false
    }

    open spec fn from_spec(events: Vec<T>) -> SequenceEvent {
        choose|r: SequenceEvent| is_group_of(events@, r)
    }
}

impl SequenceEvent {
    /// Nested group of `events`, each converted into a slot in order, so that
    /// `SequenceEvent::group(vec!["E4", "G4"])` is a group of two values.
    pub fn group<T: Into<SequenceEvent>>(events: Vec<T>) -> (r: Self)
        ensures
            is_group_of(events@, r),
    {
        let mut rest = events;
        let mut out: Vec<SequenceEvent> = Vec::new();
        let ghost n = rest@.len();
        while rest.len() > 0
            invariant
                out@.len() + rest@.len() == n,
                n == events@.len(),
                rest@ == events@.subrange(out@.len() as int, n as int),
                forall|i: int|
                    0 <= i < out@.len() ==> call_ensures(
                        <T as Into<SequenceEvent>>::into,
                        (events@[i],),
                        #[trigger] out@[i],
                    ),
            decreases rest@.len(),
        {
            let item = rest.remove(0);
            out.push(item.into());
        }
        SequenceEvent::Group(out)
    }
}

/// A value slot's place: the `(index, count)` of each group level from the
/// outside in, and the value. The slot starts at `start + Σ index_k * width_k`,
/// where `width_0` is the sequence's slot width and `width_{k+1} = width_k / count_k`.
pub type SlotPath = Vec<(usize, usize)>;

/// Value slots of `e` by their path below `e`'s own slot, in playing order.
pub open spec fn event_leaves(e: SequenceEvent) -> Seq<(Seq<(usize, usize)>, Seq<char>)>
    decreases e, 0int,
{
    match e {
        SequenceEvent::Rest => Seq::empty(),
        SequenceEvent::Value(v) => seq![(Seq::<(usize, usize)>::empty(), v@)],
        SequenceEvent::Group(g) => group_leaves(g@, g@.len() as int),
    }
}

/// Value slots of the first `k` events of a group of `g.len()` slots, each
/// path starting with the slot's `(index, g.len())`.
pub open spec fn group_leaves(g: Seq<SequenceEvent>, k: int) -> Seq<(Seq<(usize, usize)>, Seq<char>)>
    decreases g, k,
{
    if k <= 0 || k > g.len() {
        Seq::empty()
    } else {
        group_leaves(g, k - 1) + under(
            event_leaves(g[k - 1]),
            ((k - 1) as usize, g.len() as usize),
        )
    }
}

/// `ls` with `step` put in front of every path.
pub open spec fn under(ls: Seq<(Seq<(usize, usize)>, Seq<char>)>, step: (usize, usize)) -> Seq<
    (Seq<(usize, usize)>, Seq<char>),
> {
    ls.map_values(|l: (Seq<(usize, usize)>, Seq<char>)| (seq![step] + l.0, l.1))
}

/// `ls` with `prefix` put in front of every path.
pub open spec fn below(ls: Seq<(Seq<(usize, usize)>, Seq<char>)>, prefix: Seq<(usize, usize)>) -> Seq<
    (Seq<(usize, usize)>, Seq<char>),
> {
    ls.map_values(|l: (Seq<(usize, usize)>, Seq<char>)| (prefix + l.0, l.1))
}

/// Value slots by their characters.
pub open spec fn leaf_view(v: Seq<(SlotPath, String)>) -> Seq<(Seq<(usize, usize)>, Seq<char>)> {
    v.map_values(|x: (SlotPath, String)| (x.0@, x.1@))
}

/// `prefix` followed by `(i, n)`.
fn extend_path(prefix: &SlotPath, i: usize, n: usize) -> (r: SlotPath)
    ensures
        r@ == prefix@.push((i, n)),
{
    let mut r: SlotPath = Vec::new();
    let mut k: usize = 0;
    while k < prefix.len()
        invariant
            0 <= k <= prefix@.len(),
            r@ == prefix@.subrange(0, k as int),
        decreases prefix@.len() - k,
    {
        r.push(prefix[k]);
        k = k + 1;
    }
    assert(prefix@.subrange(0, prefix@.len() as int) =~= prefix@);
    r.push((i, n));
    r
}

/// Append the value slots of `events` (a group of `events.len()` slots below
/// `prefix`) to `out`.
fn flatten_into(events: &Vec<SequenceEvent>, prefix: &SlotPath, out: &mut Vec<(SlotPath, String)>)
    ensures
        leaf_view(final(out)@) == leaf_view(old(out)@) + below(
            group_leaves(events@, events@.len() as int),
            prefix@,
        ),
    decreases events@,
{
    let n = events.len();
    let mut i: usize = 0;
    assert(leaf_view(out@) =~= leaf_view(old(out)@) + below(group_leaves(events@, 0), prefix@));
    while i < n
        invariant
            0 <= i <= n,
            n == events@.len(),
            leaf_view(out@) == leaf_view(old(out)@) + below(group_leaves(events@, i as int), prefix@),
        decreases n - i,
    {
        let ghost before = out@;
        let path = extend_path(prefix, i, n);
        proof {
            lemma_below_step(events@, i as int, prefix@);
        }
        match &events[i] {
            SequenceEvent::Rest => {
                assert(below(event_leaves(events@[i as int]), path@) =~= Seq::empty());
            },
            SequenceEvent::Value(v) => {
                out.push((path, v.clone()));
                assert(below(event_leaves(events@[i as int]), path@) =~= seq![(path@, v@)]);
                assert(leaf_view(out@) =~= leaf_view(before) + seq![(path@, v@)]);
            },
            SequenceEvent::Group(g) => {
                proof {
                    assert(decreases_to!(events@ => events@[i as int]));
                }
                flatten_into(g, &path, out);
            },
        }
        assert(leaf_view(out@) =~= leaf_view(old(out)@) + below(
            group_leaves(events@, i + 1),
            prefix@,
        ));
        i = i + 1;
    }
}

/// Slot `i` of a group adds its own value slots, below the group's prefix
/// followed by `(i, g.len())`.
proof fn lemma_below_step(g: Seq<SequenceEvent>, i: int, prefix: Seq<(usize, usize)>)
    requires
        0 <= i < g.len(),
    ensures
        below(group_leaves(g, i + 1), prefix) == below(group_leaves(g, i), prefix) + below(
            event_leaves(g[i]),
            prefix.push((i as usize, g.len() as usize)),
        ),
{
    let step = (i as usize, g.len() as usize);
    let ls = event_leaves(g[i]);
    assert(group_leaves(g, i + 1) == group_leaves(g, i) + under(ls, step));
    assert(below(group_leaves(g, i) + under(ls, step), prefix) =~= below(group_leaves(g, i), prefix)
        + below(under(ls, step), prefix));
    assert forall|j: int| 0 <= j < ls.len() implies (prefix + (seq![step] + ls[j].0)) =~= (
    prefix.push(step) + ls[j].0) by {}
    assert(below(under(ls, step), prefix) =~= below(ls, prefix.push(step)));
}

/// The value slots of a sequence with their nesting paths, in playing order;
/// rests take their slot and add nothing.
pub fn flatten(events: &Vec<SequenceEvent>) -> (r: Vec<(SlotPath, String)>)
    ensures
        leaf_view(r@) == group_leaves(events@, events@.len() as int),
{
    let mut out: Vec<(SlotPath, String)> = Vec::new();
    let prefix: SlotPath = Vec::new();
    flatten_into(events, &prefix, &mut out);
    assert(leaf_view(out@) =~= below(group_leaves(events@, events@.len() as int), prefix@));
    assert forall|j: int|
        0 <= j < group_leaves(events@, events@.len() as int).len() implies (prefix@ + group_leaves(
        events@,
        events@.len() as int,
    )[j].0) =~= group_leaves(events@, events@.len() as int)[j].0 by {}
    assert(below(group_leaves(events@, events@.len() as int), prefix@) =~= group_leaves(
        events@,
        events@.len() as int,
    ));
    out
}

} // verus!
