//! The interpreter's persistent state: its configuration and registers.
use vstd::prelude::*;

verus! {

/// What the interpreter was instantiated with.
#[derive(Clone, Debug, PartialEq, Eq)]
pub struct Config {
    pub registry_address: Vec<u8>,
    pub relayer_address: Vec<u8>,
    pub network_id: u32,
    pub user_id: Vec<u8>,
}

/// A key and a value of an event.
#[derive(Clone, Debug, PartialEq, Eq)]
pub struct Attribute {
    pub key: String,
    pub value: String,
}

/// An event emitted by a dispatched call.
#[derive(Clone, Debug, PartialEq, Eq)]
pub struct RawEvent {
    pub ty: String,
    pub attributes: Vec<Attribute>,
}

/// What a successful dispatched call reported.
#[derive(Clone, Debug, PartialEq, Eq)]
pub struct SubCallOutcome {
    pub events: Vec<RawEvent>,
    pub data: Option<Vec<u8>>,
}

/// The registers and configuration of one interpreter instance.
#[derive(Clone, Debug, PartialEq, Eq)]
pub struct State {
    pub config: Config,
    /// Index, in the submitted program's numbering, of the next instruction.
    pub ip: u64,
    /// The last observed outcome of a dispatched call, if any.
    pub result: Option<Result<SubCallOutcome, String>>,
    /// The callers allowed to submit programs; no address twice.
    pub owners: Vec<Vec<u8>>,
}

/// The owners as a set of addresses.
pub open spec fn owner_set(owners: Seq<Vec<u8>>) -> Set<Seq<u8>> {
    Set::new(|a: Seq<u8>| exists|i: int| 0 <= i < owners.len() && (#[trigger] owners[i])@ == a)
}

/// No address is listed twice.
pub open spec fn owners_distinct(owners: Seq<Vec<u8>>) -> bool {
    forall|i: int, j: int|
        0 <= i < owners.len() && 0 <= j < owners.len() && i != j ==> (#[trigger] owners[i])@
            != (#[trigger] owners[j])@
}

impl State {
    /// The state's invariant: the owner list holds no address twice.
    pub open spec fn wf(&self) -> bool {
        owners_distinct(self.owners@)
    }
}

impl Attribute {
    /// A copy of the attribute.
    pub fn copy(&self) -> (r: Attribute)
        ensures
            r.key@ == self.key@,
            r.value@ == self.value@,
    {
        Attribute { key: self.key.clone(), value: self.value.clone() }
    }
}

/// Two attribute lists hold the same keys and values.
pub open spec fn same_attributes(a: Seq<Attribute>, b: Seq<Attribute>) -> bool {
    a.len() == b.len() && forall|i: int|
        0 <= i < a.len() ==> (#[trigger] a[i]).key@ == b[i].key@ && a[i].value@ == b[i].value@
}

/// Two event lists are alike, event by event.
pub open spec fn same_events(a: Seq<RawEvent>, b: Seq<RawEvent>) -> bool {
    a.len() == b.len() && forall|i: int|
        0 <= i < a.len() ==> (#[trigger] a[i]).ty@ == b[i].ty@ && same_attributes(
            a[i].attributes@,
            b[i].attributes@,
        )
}

impl RawEvent {
    /// A copy of the event.
    pub fn copy(&self) -> (r: RawEvent)
        ensures
            r.ty@ == self.ty@,
            same_attributes(r.attributes@, self.attributes@),
    {
        let mut attributes: Vec<Attribute> = Vec::new();
        let mut i: usize = 0;
        while i < self.attributes.len()
            invariant
                i <= self.attributes@.len(),
                attributes@.len() == i,
                forall|k: int|
                    0 <= k < i ==> (#[trigger] attributes@[k]).key@ == self.attributes@[k].key@
                        && attributes@[k].value@ == self.attributes@[k].value@,
            decreases self.attributes@.len() - i,
        {
            attributes.push(self.attributes[i].copy());
            i += 1;
        }
        RawEvent { ty: self.ty.clone(), attributes }
    }
}

/// A copy of a list of events.
pub fn copy_events(events: &Vec<RawEvent>) -> (r: Vec<RawEvent>)
    ensures
        same_events(r@, events@),
{
    let mut out: Vec<RawEvent> = Vec::new();
    let mut i: usize = 0;
    while i < events.len()
        invariant
            i <= events@.len(),
            out@.len() == i,
            forall|k: int|
                0 <= k < i ==> (#[trigger] out@[k]).ty@ == events@[k].ty@ && same_attributes(
                    out@[k].attributes@,
                    events@[k].attributes@,
                ),
        decreases events@.len() - i,
    {
        out.push(events[i].copy());
        i += 1;
    }
    out
}

} // verus!
