//! The registry of open ports: which names are taken, the handle behind
//! each, and whether a reader task streams from it.
//!
//! The registry is generic in the port handle `P` and in the sending end `S`
//! of a reader's cancellation channel; it stores both and never looks inside.

use vstd::prelude::*;

verus! {

/// What the registry keeps for one open port.
pub struct SerialPortState<P, S> {
    /// The open port.
    pub port: P,
    /// The sending end of the cancellation channel of the reader task that
    /// was started for this port, if one was.
    pub sender: Option<S>,
}

/// Whether some entry of `ports` goes by `name`.
pub open spec fn has_port<P, S>(
    ports: Seq<(Seq<char>, SerialPortState<P, S>)>,
    name: Seq<char>,
) -> bool {
    exists|i: int| 0 <= i < ports.len() && (#[trigger] ports[i]).0 == name
}

/// The place of the entry of `ports` that goes by `name`.
pub open spec fn port_index<P, S>(
    ports: Seq<(Seq<char>, SerialPortState<P, S>)>,
    name: Seq<char>,
) -> int {
    choose|i: int| 0 <= i < ports.len() && (#[trigger] ports[i]).0 == name
}

/// The entry that goes by `name`.
pub open spec fn port_of<P, S>(
    ports: Seq<(Seq<char>, SerialPortState<P, S>)>,
    name: Seq<char>,
) -> SerialPortState<P, S> {
    ports[port_index(ports, name)].1
}

/// No two entries of `ports` go by the same name.
pub open spec fn distinct_names<P, S>(ports: Seq<(Seq<char>, SerialPortState<P, S>)>) -> bool {
    forall|i: int, j: int|
        0 <= i < ports.len() && 0 <= j < ports.len() && i != j ==> (#[trigger] ports[i]).0 != (
        #[trigger] ports[j]).0
}

/// The open ports by name.
pub struct SerialPortsState<P, S> {
    listen_ports: Vec<(String, SerialPortState<P, S>)>,
}

impl<P, S> View for SerialPortsState<P, S> {
    type V = Seq<(Seq<char>, SerialPortState<P, S>)>;

    /// The entries, oldest first, each with the name it goes by.
    closed spec fn view(&self) -> Seq<(Seq<char>, SerialPortState<P, S>)> {
        named(self.listen_ports@)
    }
}

/// The stored entries with each name as the text it holds.
spec fn named<P, S>(list: Seq<(String, SerialPortState<P, S>)>) -> Seq<
    (Seq<char>, SerialPortState<P, S>),
> {
    list.map_values(|e: (String, SerialPortState<P, S>)| (e.0@, e.1))
}

impl<P, S> SerialPortsState<P, S> {
    /// Holds of every registry: no two of its entries go by one name.
    #[verifier::type_invariant]
    spec fn names_are_distinct(&self) -> bool {
        distinct_names(self@)
    }

    /// A registry without ports.
    pub fn new() -> (ports: Self)
        ensures
            ports@ == Seq::<(Seq<char>, SerialPortState<P, S>)>::empty(),
    {
        let ports = SerialPortsState { listen_ports: Vec::new() };
        assert(ports@ =~= Seq::<(Seq<char>, SerialPortState<P, S>)>::empty());
        ports
    }

    /// Number of open ports.
    pub fn len(&self) -> (n: usize)
        ensures
            n == self@.len(),
            distinct_names(self@),
    {
        proof {
            use_type_invariant(self);
        }
        self.listen_ports.len()
    }

    /// The place of the port that goes by `name`, if there is one.
    pub(crate) fn find(&self, name: &str) -> (place: Option<usize>)
        ensures
            distinct_names(self@),
            match place {
                Some(i) => has_port(self@, name@) && i == port_index(self@, name@),
                None => !has_port(self@, name@),
            },
    {
        proof {
            use_type_invariant(self);
        }
        let mut i: usize = 0;
        while i < self.listen_ports.len()
            invariant
                i <= self.listen_ports.len(),
                self@ == named(self.listen_ports@),
                distinct_names(self@),
                forall|j: int| 0 <= j < i ==> (#[trigger] self@[j]).0 != name@,
            decreases self.listen_ports.len() - i,
        {
            if crate::text::same_text(self.listen_ports[i].0.as_str(), name) {
                assert(self@[i as int].0 == name@);
                return Some(i);
            }
            i += 1;
        }
        None
    }

    /// The entry at place `i`.
    pub(crate) fn entry(&self, i: usize) -> (state: &SerialPortState<P, S>)
        requires
            i < self@.len(),
        ensures
            *state == self@[i as int].1,
    {
        &self.listen_ports[i].1
    }

    /// Adds a port under a name that is not taken.
    pub(crate) fn insert(&mut self, name: String, state: SerialPortState<P, S>)
        requires
            !has_port(old(self)@, name@),
        ensures
            final(self)@ == old(self)@.push((name@, state)),
            distinct_names(final(self)@),
    {
        proof {
            use_type_invariant(&*self);
        }
        let mut list: Vec<(String, SerialPortState<P, S>)> = Vec::new();
        core::mem::swap(&mut self.listen_ports, &mut list);
        list.push((name, state));
        assert(named(list@) =~= old(self)@.push((name@, state)));
        core::mem::swap(&mut self.listen_ports, &mut list);
    }

    /// Takes out the entry at place `i`.
    pub(crate) fn remove(&mut self, i: usize) -> (state: SerialPortState<P, S>)
        requires
            i < old(self)@.len(),
        ensures
            state == old(self)@[i as int].1,
            final(self)@ == old(self)@.remove(i as int),
            distinct_names(final(self)@),
    {
        proof {
            use_type_invariant(&*self);
        }
        let mut list: Vec<(String, SerialPortState<P, S>)> = Vec::new();
        core::mem::swap(&mut self.listen_ports, &mut list);
        let removed = list.remove(i);
        assert(named(list@) =~= old(self)@.remove(i as int));
        core::mem::swap(&mut self.listen_ports, &mut list);
        removed.1
    }

    /// Records `sender` as the cancellation channel of the entry at place `i`.
    pub(crate) fn set_sender(&mut self, i: usize, sender: S)
        requires
            i < old(self)@.len(),
        ensures
            final(self)@ == old(self)@.update(
                i as int,
                (
                    old(self)@[i as int].0,
                    SerialPortState { port: old(self)@[i as int].1.port, sender: Some(sender) },
                ),
            ),
            distinct_names(final(self)@),
    {
        proof {
            use_type_invariant(&*self);
        }
        let mut list: Vec<(String, SerialPortState<P, S>)> = Vec::new();
        core::mem::swap(&mut self.listen_ports, &mut list);
        let (name, state) = list.remove(i);
        list.insert(i, (name, SerialPortState { port: state.port, sender: Some(sender) }));
        assert(named(list@) =~= old(self)@.update(
            i as int,
            (
                old(self)@[i as int].0,
                SerialPortState { port: old(self)@[i as int].1.port, sender: Some(sender) },
            ),
        ));
        core::mem::swap(&mut self.listen_ports, &mut list);
    }
}

} // verus!
