//! Calls of named services over a bridge: who serves a call, and how the parts
//! of a streamed answer are sent.

use serde_json::Value;
use vstd::prelude::*;

use crate::json;
use crate::json::{field, fields_in, json_of, text_field, Json};
use crate::order::{sort, sorted};
use crate::proto::among;
use crate::rpc::{RemoteError, RemoteView};
use crate::text::{quote, quoted, same, texts};

verus! {

/// The registered services, each under its own name.
#[derive(Debug)]
pub struct ServiceDispatch {
    services: Vec<String>,
    attached: bool,
}

#[verifier::ext_equal]
pub struct DispatchView {
    pub services: Seq<Seq<char>>,
    pub attached: bool,
}

impl View for ServiceDispatch {
    type V = DispatchView;

    closed spec fn view(&self) -> DispatchView {
        DispatchView { services: texts(self.services@), attached: self.attached }
    }
}

/// A call of a service that is to be made.
#[derive(Debug)]
pub struct ServiceCall {
    pub service: String,
    pub method: String,
    pub params: Value,
}

/// The names without repetition, each where it first stands.
pub open spec fn once_each(names: Seq<Seq<char>>) -> Seq<Seq<char>>
    decreases names.len(),
{
    if names.len() == 0 {
        Seq::empty()
    } else {
        let front = once_each(names.drop_last());
        if front.contains(names.last()) {
            front
        } else {
            front.push(names.last())
        }
    }
}

/// An error of the bridge with this code.
pub open spec fn remote_view(code: Seq<char>, message: Seq<char>) -> RemoteView {
    RemoteView { code, message }
}

/// Why a call is not made: the first of these that holds. It is no call of a
/// service; it names no service; nobody has registered the service; it names
/// no method; the bridge is not there yet.
pub open spec fn call_refusal(d: DispatchView, method: Seq<char>, params: Json) -> Option<
    RemoteView,
> {
    if method != "svc/call"@ {
        Some(
            remote_view(
                "unhandled"@,
                "service dispatch only serves svc/call, got "@ + method,
            ),
        )
    } else {
        match text_field(params, "service"@) {
            None => Some(remote_view("badRequest"@, "svc/call missing service"@)),
            Some(service) => if !d.services.contains(service) {
                Some(
                    remote_view(
                        "noService"@,
                        "no service named "@ + quoted(service) + " registered"@,
                    ),
                )
            } else if text_field(params, "method"@) is None {
                Some(remote_view("badRequest"@, "svc/call missing method"@))
            } else if !d.attached {
                Some(
                    remote_view(
                        "notAttached"@,
                        "ServiceDispatch::attach was not called after Bridge::start"@,
                    ),
                )
            } else {
                None
            },
        }
    }
}

/// What a call hands its service: the field `params`, or an empty object.
pub open spec fn handed(params: Json, given: Json) -> bool {
    match field(params, "params"@) {
        Some(j) => given == j,
        None => fields_in(given) == Some(Map::<Seq<char>, Json>::empty()),
    }
}

fn remote(code: &str, message: String) -> (r: RemoteError)
    ensures
        r@ == remote_view(code@, message@),
{
    RemoteError { code: code.to_owned(), message }
}

impl ServiceDispatch {
    /// The services of these names.
    pub fn new(services: &Vec<String>) -> (r: Self)
        ensures
            r@ == (DispatchView { services: once_each(texts(services@)), attached: false }),
    {
        let mut out: Vec<String> = Vec::new();
        let mut i: usize = 0;
        assert(texts(out@) =~= once_each(texts(services@).take(0)));
        while i < services.len()
            invariant
                i <= services@.len(),
                texts(out@) == once_each(texts(services@).take(i as int)),
            decreases services@.len() - i,
        {
            let ghost before = texts(out@);
            assert(texts(services@).take(i + 1).drop_last() =~= texts(services@).take(i as int));
            if !among(&out, services[i].as_str()) {
                out.push(services[i].clone());
                assert(texts(out@) =~= before.push(services@[i as int]@));
            }
            i = i + 1;
        }
        assert(texts(services@).take(i as int) =~= texts(services@));
        ServiceDispatch { services: out, attached: false }
    }

    /// The names of the services, in order: what the greeting declares.
    pub fn names(&self) -> (r: Vec<String>)
        ensures
            texts(r@) == sorted(self@.services),
    {
        sort(&self.services)
    }

    /// The bridge is there: streamed answers can be sent.
    pub fn attach(&mut self)
        ensures
            final(self)@ == (DispatchView { attached: true, ..old(self)@ }),
    {
        self.attached = true;
    }

    /// The call that a request asks for, or why it is not made.
    pub fn dispatch(&self, method: &str, params: &Value) -> (r: Result<ServiceCall, RemoteError>)
        ensures
            match r {
                Ok(call) => {
                    &&& call_refusal(self@, method@, json_of(*params)) is None
                    &&& text_field(json_of(*params), "service"@) == Some(call.service@)
                    &&& text_field(json_of(*params), "method"@) == Some(call.method@)
                    &&& handed(json_of(*params), json_of(call.params))
                },
                Err(e) => call_refusal(self@, method@, json_of(*params)) == Some(e@),
            },
    {
        if !same(method, "svc/call") {
            let mut m = "service dispatch only serves svc/call, got ".to_owned();
            m.push_str(method);
            return Err(remote("unhandled", m));
        }
        let service = match json::str_field(params, "service") {
            Some(s) => s,
            None => {
                return Err(remote("badRequest", "svc/call missing service".to_owned()));
            },
        };
        if !among(&self.services, service) {
            let mut m = "no service named ".to_owned();
            m.push_str(quote(service).as_str());
            m.push_str(" registered");
            return Err(remote("noService", m));
        }
        let op = match json::str_field(params, "method") {
            Some(s) => s,
            None => {
                return Err(remote("badRequest", "svc/call missing method".to_owned()));
            },
        };
        if !self.attached {
            return Err(
                remote(
                    "notAttached",
                    "ServiceDispatch::attach was not called after Bridge::start".to_owned(),
                ),
            );
        }
        let inner = match json::get(params, "params") {
            Some(v) => v.clone(),
            None => json::empty_object(),
        };
        Ok(ServiceCall { service: service.to_owned(), method: op.to_owned(), params: inner })
    }
}

/// Sends the parts of a streamed answer to the call `id`.
#[derive(Debug)]
pub struct PartSender {
    id: u64,
    count: u64,
}

impl PartSender {
    /// The call that is answered.
    pub closed spec fn call(self) -> u64 {
        self.id
    }

    /// The parts sent so far.
    pub closed spec fn sent(self) -> u64 {
        self.count
    }

    pub fn new(id: u64) -> (r: Self)
        ensures
            r.call() == id,
            r.sent() == 0,
    {
        PartSender { id, count: 0 }
    }

    /// One more part can be counted.
    pub fn has_room(&self) -> (r: bool)
        ensures
            r == (self.sent() < u64::MAX),
    {
        self.count < u64::MAX
    }

    /// What is sent of the next part, under `svc/part`. An error of the
    /// service ends the answer with it.
    pub fn part(&mut self, part: Result<Value, RemoteError>) -> (r: Result<Value, RemoteError>)
        requires
            old(self).sent() < u64::MAX,
        ensures
            final(self).call() == old(self).call(),
            match part {
                Ok(v) => {
                    &&& final(self).sent() == old(self).sent() + 1
                    &&& r matches Ok(x) && fields_in(json_of(x)) == Some(
                        Map::<Seq<char>, Json>::empty().insert(
                            "dispatchId"@,
                            Json::Int(old(self).call() as int),
                        ).insert("part"@, json_of(v)),
                    )
                },
                Err(e) => {
                    &&& final(self).sent() == old(self).sent()
                    &&& r matches Err(x) && x@ == e@
                },
            },
    {
        match part {
            Ok(v) => {
                self.count = self.count + 1;
                proof {
                    reveal_strlit("dispatchId");
                    reveal_strlit("part");
                    assert("dispatchId"@.len() != "part"@.len());
                }
                Ok(json::object2("dispatchId", json::integer(self.id), "part", v))
            },
            Err(e) => Err(e),
        }
    }

    /// The end of the answer: how many parts there were.
    pub fn finish(&self) -> (r: Value)
        ensures
            fields_in(json_of(r)) == Some(
                Map::<Seq<char>, Json>::empty().insert("parts"@, Json::Int(self.sent() as int)),
            ),
    {
        json::object1("parts", json::integer(self.count))
    }
}

/// What a failed send makes of the answer.
pub fn host_gone_error(message: String) -> (r: RemoteError)
    ensures
        r@ == remote_view("hostGone"@, message@),
{
    remote("hostGone", message)
}

// ── laws ────────────────────────────────────────────────────────────

/// A call is made just where it is a call of a service that is registered,
/// names the method and finds the bridge there.
pub proof fn law_call_is_made(d: DispatchView, method: Seq<char>, params: Json)
    ensures
        call_refusal(d, method, params) is None <==> {
            &&& method == "svc/call"@
            &&& text_field(params, "service"@) is Some
            &&& d.services.contains(text_field(params, "service"@)->0)
            &&& text_field(params, "method"@) is Some
            &&& d.attached
        },
{
}

/// A refused call is told why by a code, the first fault first.
pub proof fn law_refused_call_is_told_why(d: DispatchView, method: Seq<char>, params: Json)
    requires
        call_refusal(d, method, params) is Some,
    ensures
        ({
            let code = call_refusal(d, method, params)->0.code;
            let service = text_field(params, "service"@);
            &&& method != "svc/call"@ ==> code == "unhandled"@
            &&& method == "svc/call"@ && service is None ==> code == "badRequest"@
            &&& method == "svc/call"@ && service is Some && !d.services.contains(service->0)
                ==> code == "noService"@
            &&& method == "svc/call"@ && service is Some && d.services.contains(service->0)
                && text_field(params, "method"@) is None ==> code == "badRequest"@
            &&& method == "svc/call"@ && service is Some && d.services.contains(service->0)
                && text_field(params, "method"@) is Some ==> code == "notAttached"@ && !d.attached
        }),
{
}

/// A service is handed what the call gives it, and an empty object where it
/// gives nothing.
pub proof fn law_service_gets_what_is_given(params: Json, given: Json, j: Json)
    requires
        handed(params, given),
    ensures
        field(params, "params"@) == Some(j) ==> given == j,
        field(params, "params"@) is None ==> fields_in(given) == Some(
            Map::<Seq<char>, Json>::empty(),
        ),
{
}

/// Each name that is given is registered, once, in the order in which the names
/// first stand.
pub proof fn law_names_once_each(names: Seq<Seq<char>>, name: Seq<char>)
    ensures
        once_each(names).contains(name) == names.contains(name),
        once_each(names).no_duplicates(),
        names.contains(name) ==> once_each(names.push(name)) == once_each(names),
        !names.contains(name) ==> once_each(names.push(name)) == once_each(names) + seq![name],
    decreases names.len(),
{
    lemma_once_each(names, name);
    assert(names.push(name).drop_last() =~= names);
    assert(once_each(names).push(name) =~= once_each(names) + seq![name]);
}

proof fn lemma_once_each(names: Seq<Seq<char>>, name: Seq<char>)
    ensures
        once_each(names).contains(name) == names.contains(name),
        once_each(names).no_duplicates(),
    decreases names.len(),
{
    if names.len() > 0 {
        let front = once_each(names.drop_last());
        lemma_once_each(names.drop_last(), name);
        lemma_once_each(names.drop_last(), names.last());
        let all = once_each(names);
        if front.contains(name) {
            let i = choose|i: int| 0 <= i < front.len() && front[i] == name;
            assert(all[i] == name);
            let j = choose|j: int| 0 <= j < names.drop_last().len() && names.drop_last()[j] == name;
            assert(names[j] == name);
        }
        if names.last() == name {
            assert(names[names.len() - 1] == name);
            if !front.contains(name) {
                assert(all[front.len() as int] == name);
            }
        }
        if all.contains(name) {
            let i = choose|i: int| 0 <= i < all.len() && all[i] == name;
            if i < front.len() {
                assert(front[i] == name);
            }
        }
        if names.contains(name) && names.last() != name {
            let j = choose|j: int| 0 <= j < names.len() && names[j] == name;
            assert(names.drop_last()[j] == name);
        }
    }
}

} // verus!
