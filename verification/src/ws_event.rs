//! Events for the clients of a workspace, and the subjects that they go out on.

use vstd::prelude::*;
use crate::text::{decimal, push_decimal};
use crate::visibility::ChangeSetPk;

verus! {

pub type BillingAccountPk = i64;

pub type SchemaPk = i64;

pub type PropId = i64;

pub type SocketId = i64;

pub type AttributeValueId = i64;

pub type ComponentId = i64;

pub type UserPk = i64;

/// The billing accounts that a reader may read for.
#[derive(Clone, Debug, PartialEq, Eq)]
pub struct ReadTenancy {
    pub(crate) billing_account_pks: Vec<BillingAccountPk>,
}

impl ReadTenancy {
    pub open(crate) spec fn spec_billing_accounts(&self) -> Seq<BillingAccountPk> {
        self.billing_account_pks@
    }

    pub fn new(billing_account_pks: Vec<BillingAccountPk>) -> (t: ReadTenancy)
        ensures
            t.spec_billing_accounts() == billing_account_pks@,
    {
        ReadTenancy { billing_account_pks }
    }

    pub fn billing_accounts(&self) -> (pks: &Vec<BillingAccountPk>)
        ensures
            pks@ == self.spec_billing_accounts(),
    {
        &self.billing_account_pks
    }
}

/// Who caused an event.
#[derive(Clone, Debug, PartialEq, Eq)]
pub enum ActorView {
    System { label: String },
    User { pk: UserPk, label: String },
}

/// What an event tells.
#[derive(Clone, Debug, PartialEq, Eq)]
pub enum WsPayload {
    ChangeSetCreated(ChangeSetPk),
    ChangeSetApplied(ChangeSetPk),
    ChangeSetCanceled(ChangeSetPk),
    ChangeSetWritten(ChangeSetPk),
    SchemaCreated(SchemaPk),
    ResourceRefreshed(ComponentId),
}

#[derive(Clone, Copy, Debug, PartialEq, Eq, Hash)]
pub enum StatusValueKind {
    Attribute(PropId),
    CodeGen,
    Qualification,
    Internal,
    InputSocket(SocketId),
    OutputSocket(SocketId),
}

#[derive(Clone, Copy, Debug, PartialEq, Eq, Hash)]
pub struct AttributeValueStatusUpdate {
    pub(crate) value_id: AttributeValueId,
    pub(crate) component_id: ComponentId,
    pub(crate) value_kind: StatusValueKind,
}

impl AttributeValueStatusUpdate {
    pub open(crate) spec fn spec_value_id(&self) -> AttributeValueId {
        self.value_id
    }

    pub open(crate) spec fn spec_component_id(&self) -> ComponentId {
        self.component_id
    }

    pub open(crate) spec fn spec_value_kind(&self) -> StatusValueKind {
        self.value_kind
    }

    pub fn new(
        value_id: AttributeValueId,
        component_id: ComponentId,
        value_kind: StatusValueKind,
    ) -> (u: AttributeValueStatusUpdate)
        ensures
            u.spec_value_id() == value_id,
            u.spec_component_id() == component_id,
            u.spec_value_kind() == value_kind,
    {
        AttributeValueStatusUpdate { value_id, component_id, value_kind }
    }

    pub fn value_id(&self) -> (r: AttributeValueId)
        ensures
            r == self.spec_value_id(),
    {
        self.value_id
    }

    pub fn component_id(&self) -> (r: ComponentId)
        ensures
            r == self.spec_component_id(),
    {
        self.component_id
    }

    pub fn value_kind(&self) -> (r: StatusValueKind)
        ensures
            r == self.spec_value_kind(),
    {
        self.value_kind
    }
}

/// The subject on which the events for a billing account go out.
pub open spec fn subject_text(pk: BillingAccountPk) -> Seq<char> {
    "si.billing_account_pk."@ + decimal(pk as int) + ".event"@
}

/// The subject on which the events for a billing account go out.
pub fn subject_for(pk: BillingAccountPk) -> (s: String)
    ensures
        s@ == subject_text(pk),
{
    let mut s = String::from_str("si.billing_account_pk.");
    push_decimal(&mut s, pk);
    s.append(".event");
    s
}

#[derive(Clone, Debug, PartialEq, Eq)]
pub struct WsEvent {
    pub(crate) version: i64,
    pub(crate) billing_account_pks: Vec<BillingAccountPk>,
    pub(crate) actor: ActorView,
    pub(crate) change_set_pk: ChangeSetPk,
    pub(crate) payload: WsPayload,
}

impl WsEvent {
    pub open(crate) spec fn spec_version(&self) -> i64 {
        self.version
    }

    pub open(crate) spec fn spec_billing_account_pks(&self) -> Seq<BillingAccountPk> {
        self.billing_account_pks@
    }

    pub open(crate) spec fn spec_actor(&self) -> ActorView {
        self.actor
    }

    pub open(crate) spec fn spec_change_set_pk(&self) -> ChangeSetPk {
        self.change_set_pk
    }

    pub open(crate) spec fn spec_payload(&self) -> WsPayload {
        self.payload
    }

    /// An event of version 1 for the billing accounts of the reader.
    pub fn new(
        tenancy: &ReadTenancy,
        actor: ActorView,
        change_set_pk: ChangeSetPk,
        payload: WsPayload,
    ) -> (e: WsEvent)
        ensures
            e.spec_version() == 1,
            e.spec_billing_account_pks() == tenancy.spec_billing_accounts(),
            e.spec_actor() == actor,
            e.spec_change_set_pk() == change_set_pk,
            e.spec_payload() == payload,
    {
        WsEvent {
            version: 1,
            billing_account_pks: WsEvent::billing_account_pk_from_tenancy(tenancy),
            actor,
            change_set_pk,
            payload,
        }
    }

    /// The billing accounts of the reader, in their order.
    pub fn billing_account_pk_from_tenancy(tenancy: &ReadTenancy) -> (pks: Vec<BillingAccountPk>)
        ensures
            pks@ == tenancy.spec_billing_accounts(),
    {
        let source = tenancy.billing_accounts();
        let mut pks: Vec<BillingAccountPk> = Vec::new();
        let mut i: usize = 0;
        while i < source.len()
            invariant
                i <= source@.len(),
                pks@ == source@.take(i as int),
            decreases source@.len() - i,
        {
            pks.push(source[i]);
            proof {
                assert(source@.take(i as int).push(source@[i as int]) =~= source@.take(i + 1));
            }
            i += 1;
        }
        proof {
            assert(source@.take(source@.len() as int) =~= source@);
        }
        pks
    }

    /// The subjects on which the event goes out: one for each billing
    /// account, in their order.
    pub fn subjects(&self) -> (out: Vec<String>)
        ensures
            out@.len() == self.spec_billing_account_pks().len(),
            forall|i: int|
                0 <= i < out@.len() ==> (#[trigger] out@[i])@ == subject_text(
                    self.spec_billing_account_pks()[i],
                ),
    {
        let mut out: Vec<String> = Vec::new();
        let mut i: usize = 0;
        while i < self.billing_account_pks.len()
            invariant
                i <= self.billing_account_pks@.len(),
                out@.len() == i,
                forall|k: int|
                    0 <= k < i ==> (#[trigger] out@[k])@ == subject_text(
                        self.billing_account_pks@[k],
                    ),
            decreases self.billing_account_pks@.len() - i,
        {
            out.push(subject_for(self.billing_account_pks[i]));
            i += 1;
        }
        out
    }

    pub fn version(&self) -> (v: i64)
        ensures
            v == self.spec_version(),
    {
        self.version
    }

    pub fn billing_account_pks(&self) -> (pks: &Vec<BillingAccountPk>)
        ensures
            pks@ == self.spec_billing_account_pks(),
    {
        &self.billing_account_pks
    }

    pub fn actor(&self) -> (a: &ActorView)
        ensures
            *a == self.spec_actor(),
    {
        &self.actor
    }

    pub fn change_set_pk(&self) -> (pk: ChangeSetPk)
        ensures
            pk == self.spec_change_set_pk(),
    {
        self.change_set_pk
    }

    pub fn payload(&self) -> (p: &WsPayload)
        ensures
            *p == self.spec_payload(),
    {
        &self.payload
    }
}

} // verus!
