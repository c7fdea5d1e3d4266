//! What claims hand to the Fiat-Shamir channel, in the order in which it
//! must absorb them.

use vstd::prelude::*;

use crate::secure_field::{secure_values, SecureValue, QM31};

verus! {

/// One absorption: a 64-bit number, or a run of extension-field elements.
#[derive(Debug)]
pub enum ChannelInput {
    U64(u64),
    Felts(Vec<QM31>),
}

/// What one absorption holds.
pub enum ChannelInputValue {
    U64(u64),
    Felts(Seq<SecureValue>),
}

impl View for ChannelInput {
    type V = ChannelInputValue;

    open spec fn view(&self) -> ChannelInputValue {
        match self {
            ChannelInput::U64(value) => ChannelInputValue::U64(*value),
            ChannelInput::Felts(felts) => ChannelInputValue::Felts(secure_values(felts@)),
        }
    }
}

/// The absorptions made so far, oldest first. A channel that absorbs them in
/// this order is in the state that the claims ask for.
#[derive(Debug)]
pub struct Transcript {
    pub inputs: Vec<ChannelInput>,
}

impl View for Transcript {
    type V = Seq<ChannelInputValue>;

    open spec fn view(&self) -> Seq<ChannelInputValue> {
        self.inputs@.map_values(|input: ChannelInput| input@)
    }
}

impl Transcript {
    pub fn new() -> (r: Transcript)
        ensures
            r@ == Seq::<ChannelInputValue>::empty(),
    {
        let r = Transcript { inputs: Vec::new() };
        assert(r@ =~= Seq::<ChannelInputValue>::empty());
        r
    }

    /// Absorbs a 64-bit number.
    pub fn mix_u64(&mut self, value: u64)
        ensures
            final(self)@ == old(self)@.push(ChannelInputValue::U64(value)),
    {
        self.inputs.push(ChannelInput::U64(value));
        assert(self@ =~= old(self)@.push(ChannelInputValue::U64(value)));
    }

    /// Absorbs a run of extension-field elements.
    pub fn mix_felts(&mut self, felts: Vec<QM31>)
        ensures
            final(self)@ == old(self)@.push(ChannelInputValue::Felts(secure_values(felts@))),
    {
        let ghost values = secure_values(felts@);
        self.inputs.push(ChannelInput::Felts(felts));
        assert(self@ =~= old(self)@.push(ChannelInputValue::Felts(values)));
    }
}

/// A challenge drawn from the channel, under its name.
#[derive(Debug)]
pub struct InteractionElement {
    pub name: String,
    pub value: QM31,
}

/// The challenges drawn from the channel after the trace is committed.
#[derive(Debug)]
pub struct InteractionElements {
    pub elements: Vec<InteractionElement>,
}

/// The first of the challenges with the given name.
pub open spec fn named_element(elements: Seq<InteractionElement>, name: Seq<char>) -> Option<QM31>
    decreases elements.len(),
{
    if elements.len() == 0 {
        None
    } else if elements[0].name@ == name {
        Some(elements[0].value)
    } else {
        named_element(elements.drop_first(), name)
    }
}

impl InteractionElements {
    /// The first of the challenges with the given name.
    pub open spec fn spec_get(&self, name: Seq<char>) -> Option<QM31> {
        named_element(self.elements@, name)
    }

    /// The first of the challenges with the given name.
    pub fn get(&self, name: &str) -> (r: Option<QM31>)
        ensures
            r == self.spec_get(name@),
    {
        let wanted: String = name.to_owned();
        let mut i: usize = 0;
        assert(self.elements@.skip(0) =~= self.elements@);
        while i < self.elements.len()
            invariant
                0 <= i <= self.elements@.len(),
                wanted@ == name@,
                named_element(self.elements@, name@) == named_element(
                    self.elements@.skip(i as int),
                    name@,
                ),
            decreases self.elements@.len() - i,
        {
            assert(self.elements@.skip(i as int)[0] == self.elements@[i as int]);
            assert(self.elements@.skip(i as int).drop_first() =~= self.elements@.skip(i + 1));
            if self.elements[i].name == wanted {
                return Some(self.elements[i].value);
            }
            i = i + 1;
        }
        None
    }
}

} // verus!
