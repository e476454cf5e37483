//! The calls a client can issue, as a closed union of exactly three kinds.
//! Each kind fixes its wire tag and the shape of the reply it expects:
//! `List` carries no payload, `Methods` names one device, and `Invoke`
//! names a device, a method, and an ordered sequence of pre-serialized
//! parameters.

use vstd::prelude::*;

use crate::id::{valid_uuid, DeviceId};
use crate::scan::param_valid;

verus! {

/// The request for the catalog of devices. It genuinely carries zero
/// information, so its wire form has no `data` field at all.
pub struct List;

/// The request for one device's method descriptors.
pub struct Methods {
    pub device_id: DeviceId,
}

/// The request to invoke one method on one device. Each parameter is an
/// opaque, already-serialized JSON value.
pub struct Invoke {
    pub device_id: DeviceId,
    pub name: Vec<u8>,
    pub parameters: Vec<Vec<u8>>,
}

/// The closed union of the three call kinds. No other kind exists on the
/// wire, so no call site can pair a request with the wrong reply shape.
pub enum CallKind {
    List(List),
    Methods(Methods),
    Invoke(Invoke),
}

/// One call, ready to be encoded.
pub struct Call {
    pub kind: CallKind,
}

/// The mathematical value of a call: the kind and the plain data it
/// carries.
pub enum CallView {
    List,
    Methods { device_id: Seq<u8> },
    Invoke { device_id: Seq<u8>, name: Seq<u8>, parameters: Seq<Seq<u8>> },
}

/// What a well-formed call is: identifiers are canonical UUID texts and
/// every pre-serialized parameter is a single embeddable JSON value.
pub open spec fn call_wf(c: CallView) -> bool {
    match c {
        CallView::List => true,
        CallView::Methods { device_id } => valid_uuid(device_id),
        CallView::Invoke { device_id, name, parameters } => {
            &&& valid_uuid(device_id)
            &&& forall|i: int| 0 <= i < parameters.len() ==> param_valid(#[trigger] parameters[i])
        },
    }
}

/// One parameter that is not an embeddable JSON value makes the whole
/// call ill-formed.
pub proof fn lemma_invoke_not_wf(c: CallView, j: int)
    requires
        c matches CallView::Invoke { parameters, .. },
        0 <= j < c->Invoke_parameters.len(),
        !param_valid(c->Invoke_parameters[j]),
    ensures
        !call_wf(c),
{
}

/// The value of a call kind.
pub open spec fn kind_view(k: CallKind) -> CallView {
    match k {
        CallKind::List(_) => CallView::List,
        CallKind::Methods(m) => CallView::Methods { device_id: m.device_id@ },
        CallKind::Invoke(inv) => CallView::Invoke {
            device_id: inv.device_id@,
            name: inv.name@,
            parameters: inv.parameters.deep_view(),
        },
    }
}

impl View for Call {
    type V = CallView;

    open spec fn view(&self) -> CallView {
        kind_view(self.kind)
    }
}

impl Call {
    /// Wraps call data of any of the three kinds.
    pub fn new(data: CallKind) -> (r: Call)
        ensures
            r@ == kind_view(data),
    {
        Call { kind: data }
    }

    /// The catalog request.
    pub fn list() -> (r: Call)
        ensures
            r@ == CallView::List,
    {
        Call { kind: CallKind::List(List) }
    }

    /// The method-catalog request for one device.
    pub fn methods(device_id: DeviceId) -> (r: Call)
        ensures
            r@ == (CallView::Methods { device_id: device_id@ }),
            call_wf(r@),
    {
        proof {
            use_type_invariant(&device_id);
            device_id.lemma_inv_valid();
        }
        Call { kind: CallKind::Methods(Methods { device_id }) }
    }

    /// The invocation of `name` on the device `device_id`, with the given
    /// pre-serialized parameters. Whether the parameters are embeddable
    /// JSON values is checked when the call is encoded.
    pub fn invoke(device_id: DeviceId, name: Vec<u8>, parameters: Vec<Vec<u8>>) -> (r: Call)
        ensures
            r@ == (CallView::Invoke {
                device_id: device_id@,
                name: name@,
                parameters: parameters.deep_view(),
            }),
    {
        Call { kind: CallKind::Invoke(Invoke { device_id, name, parameters }) }
    }
}

} // verus!
