//! The language model service as another process sees it.

use serde_json::Value;
use vstd::prelude::*;

use crate::json;
use crate::json::{field, fields_in, json_of, text_field, Json};
use crate::llm::{brief_views, BriefView, LlmServiceError, ModelBrief};
use crate::message::text_opt;
use crate::rpc::{RemoteError, RemoteView};
use crate::services::remote_view;
use crate::text::{quote, quoted, same};

verus! {

/// An error of the service, as it is reported to the other end.
pub fn remote(e: LlmServiceError) -> (r: RemoteError)
    ensures
        r@ == remote_view(e@.code, e@.message),
{
    RemoteError { code: e.code, message: e.message }
}

fn refusal(code: &str, message: String) -> (r: RemoteError)
    ensures
        r@ == remote_view(code@, message@),
{
    RemoteError { code: code.to_owned(), message }
}

// ── the service ─────────────────────────────────────────────────────

/// What the other end asks of the service.
#[derive(Debug)]
pub enum FaceCall {
    /// To ask a model; the parameters are a request.
    Stream,
    /// To say what a provider has.
    ListModels { provider: String, api_key: Option<String> },
}

/// The service as the other end sees it.
#[derive(Debug)]
pub struct LlmFace {}

impl LlmFace {
    pub fn new() -> (r: Self)
        ensures
            r == (LlmFace {  }),
    {
        LlmFace {  }
    }

    /// The name of the service.
    pub fn name(&self) -> (r: &'static str)
        ensures
            r@ == "llm"@,
    {
        "llm"
    }

    /// What the other end asks of the service, or why it is refused.
    pub fn call(&self, method: &str, params: &Value) -> (r: Result<FaceCall, RemoteError>)
        ensures
            match r {
                Ok(FaceCall::Stream) => method@ == "stream"@,
                Ok(FaceCall::ListModels { provider, api_key }) => {
                    &&& method@ != "stream"@
                    &&& method@ == "listModels"@
                    &&& provider@ == match text_field(json_of(*params), "provider"@) {
                        Some(p) => p,
                        None => "llm"@,
                    }
                    &&& text_opt(api_key) == text_field(json_of(*params), "apiKey"@)
                },
                Err(e) => {
                    &&& method@ != "stream"@
                    &&& method@ != "listModels"@
                    &&& e@ == remote_view(
                        "unhandled"@,
                        "llm face only serves stream/listModels, got "@ + quoted(method@),
                    )
                },
            },
    {
        if same(method, "stream") {
            return Ok(FaceCall::Stream);
        }
        if same(method, "listModels") {
            let provider = match json::str_field(params, "provider") {
                Some(p) => p.to_owned(),
                None => "llm".to_owned(),
            };
            let api_key = match json::str_field(params, "apiKey") {
                Some(k) => Some(k.to_owned()),
                None => None,
            };
            return Ok(FaceCall::ListModels { provider, api_key });
        }
        let mut message = "llm face only serves stream/listModels, got ".to_owned();
        message.push_str(quote(method).as_str());
        Err(refusal("unhandled", message))
    }
}

/// The fields of a model in an answer; what is not known is null.
pub open spec fn model_fields(m: BriefView) -> Map<Seq<char>, Json> {
    Map::<Seq<char>, Json>::empty().insert("id"@, Json::Text(m.id)).insert(
        "owned_by"@,
        match m.owned_by {
            Some(o) => Json::Text(o),
            None => Json::Null,
        },
    ).insert(
        "created"@,
        match m.created {
            Some(c) => Json::Int(c as int),
            None => Json::Null,
        },
    )
}

/// The value is an answer that lists these models.
pub open spec fn lists_models(j: Json, models: Seq<BriefView>) -> bool {
    &&& fields_in(j) is Some
    &&& fields_in(j)->0.dom() =~= set!["models"@]
    &&& match field(j, "models"@) {
        Some(Json::Array(items)) => {
            &&& items.len() == models.len()
            &&& forall|i: int|
                0 <= i < items.len() ==> fields_in(#[trigger] items[i]) == Some(
                    model_fields(models[i]),
                )
        },
        _ => false,
    }
}

fn model_value(m: &ModelBrief) -> (r: Value)
    ensures
        fields_in(json_of(r)) == Some(model_fields(m@)),
{
    let owned_by = match &m.owned_by {
        Some(o) => json::string(o.clone()),
        None => json::null(),
    };
    let created = match m.created {
        Some(c) => json::signed_integer(c),
        None => json::null(),
    };
    proof {
        reveal_strlit("id");
        reveal_strlit("owned_by");
        reveal_strlit("created");
        assert("id"@.len() == 2);
        assert("owned_by"@.len() == 8);
        assert("created"@.len() == 7);
    }
    json::object3("id", json::string(m.id.clone()), "owned_by", owned_by, "created", created)
}

/// The answer that lists these models.
pub fn models_reply(models: &Vec<ModelBrief>) -> (r: Value)
    ensures
        lists_models(json_of(r), brief_views(models@)),
{
    let mut items: Vec<Value> = Vec::new();
    let mut i: usize = 0;
    while i < models.len()
        invariant
            i <= models@.len(),
            items@.len() == i,
            forall|k: int|
                0 <= k < i ==> fields_in(json_of(#[trigger] items@[k])) == Some(
                    model_fields(models@[k]@),
                ),
        decreases models@.len() - i,
    {
        items.push(model_value(&models[i]));
        i = i + 1;
    }
    json::object1("models", json::array(items))
}

// ── the seam ────────────────────────────────────────────────────────

/// A text that may be missing, as it is shown in a message.
pub open spec fn shown_option(s: Option<Seq<char>>) -> Seq<char> {
    match s {
        Some(s) => "Some("@ + quoted(s) + ")"@,
        None => "None"@,
    }
}

fn show_option(s: Option<&str>) -> (r: String)
    ensures
        r@ == shown_option(
            match s {
                Some(s) => Some(s@),
                None => None,
            },
        ),
{
    match s {
        Some(s) => {
            let mut out = "Some(".to_owned();
            out.push_str(quote(s).as_str());
            out.push_str(")");
            out
        },
        None => "None".to_owned(),
    }
}

/// Why the seam does not serve a call: the first of these that holds. It is no
/// call of a service; it is not for the stream of the model; the bridge is not
/// there yet.
pub open spec fn seam_refusal(method: Seq<char>, params: Json, attached: bool) -> Option<
    RemoteView,
> {
    let service = text_field(params, "service"@);
    let op = text_field(params, "method"@);
    if method != "svc/call"@ {
        Some(remote_view("unhandled"@, "llm seam only serves svc/call, got "@ + method))
    } else if service != Some("llm"@) || op != Some("stream"@) {
        Some(
            remote_view(
                "unhandled"@,
                "llm seam only serves llm/stream, got "@ + shown_option(service) + "/"@
                    + shown_option(op),
            ),
        )
    } else if !attached {
        Some(
            remote_view(
                "notAttached"@,
                "LlmSeam::attach was not called after Bridge::start"@,
            ),
        )
    } else {
        None
    }
}

/// The seam between a bridge and one model: pieces of an answer are told as
/// they come, and the call is answered with how it ended.
#[derive(Debug)]
pub struct LlmSeam {
    attached: bool,
}

/// A text that is told to the other end.
#[derive(Debug)]
pub struct Notice {
    pub method: String,
    pub params: Value,
}

/// An answer that is under way for the call of this number.
#[derive(Debug)]
pub struct SeamStream {
    id: u64,
    finish: Value,
}

pub open spec fn seam_finish(finish: Json, part: Json) -> Json {
    if field(part, "Finish"@) is Some {
        part
    } else {
        finish
    }
}

impl LlmSeam {
    pub closed spec fn is_attached(&self) -> bool {
        self.attached
    }

    pub fn new() -> (r: Self)
        ensures
            !r.is_attached(),
    {
        LlmSeam { attached: false }
    }

    /// The bridge is there.
    pub fn attach(&mut self)
        ensures
            final(self).is_attached(),
    {
        self.attached = true;
    }

    /// Begins to serve a call, or refuses it.
    pub fn handle(&self, id: u64, method: &str, params: &Value) -> (r: Result<
        SeamStream,
        RemoteError,
    >)
        ensures
            match r {
                Ok(s) => {
                    &&& seam_refusal(method@, json_of(*params), self.is_attached()) is None
                    &&& s.call_id() == id
                    &&& s.ending() == Json::Null
                },
                Err(e) => seam_refusal(method@, json_of(*params), self.is_attached()) == Some(e@),
            },
    {
        if !same(method, "svc/call") {
            let mut message = "llm seam only serves svc/call, got ".to_owned();
            message.push_str(method);
            return Err(refusal("unhandled", message));
        }
        let service = json::str_field(params, "service");
        let op = json::str_field(params, "method");
        let served = match (service, op) {
            (Some(s), Some(o)) => same(s, "llm") && same(o, "stream"),
            _ => false,
        };
        if !served {
            let mut message = "llm seam only serves llm/stream, got ".to_owned();
            message.push_str(show_option(service).as_str());
            message.push_str("/");
            message.push_str(show_option(op).as_str());
            return Err(refusal("unhandled", message));
        }
        if !self.attached {
            return Err(
                refusal(
                    "notAttached",
                    "LlmSeam::attach was not called after Bridge::start".to_owned(),
                ),
            );
        }
        Ok(SeamStream { id, finish: json::null() })
    }
}

impl SeamStream {
    /// The number of the call.
    pub closed spec fn call_id(&self) -> u64 {
        self.id
    }

    /// How the answer ended, as far as that is known.
    pub closed spec fn ending(&self) -> Json {
        json_of(self.finish)
    }

    /// Takes a piece, as JSON. Gives what is told to the other end: the piece,
    /// and the call that it belongs to.
    pub fn part(&mut self, part: Value) -> (r: Notice)
        ensures
            final(self).call_id() == old(self).call_id(),
            final(self).ending() == seam_finish(old(self).ending(), json_of(part)),
            r.method@ == "llm/chunk"@,
            fields_in(json_of(r.params)) == Some(
                Map::<Seq<char>, Json>::empty().insert(
                    "dispatchId"@,
                    Json::Int(old(self).call_id() as int),
                ).insert("part"@, json_of(part)),
            ),
    {
        if json::get(&part, "Finish").is_some() {
            self.finish = part.clone();
        }
        proof {
            reveal_strlit("dispatchId");
            reveal_strlit("part");
            assert("dispatchId"@.len() == 10);
            assert("part"@.len() == 4);
        }
        Notice {
            method: "llm/chunk".to_owned(),
            params: json::object2("dispatchId", json::integer(self.id), "part", part),
        }
    }

    /// The answer of the call, once all pieces have come.
    pub fn end(self) -> (r: Value)
        ensures
            fields_in(json_of(r)) == Some(
                Map::<Seq<char>, Json>::empty().insert("finish"@, self.ending()),
            ),
    {
        json::object1("finish", self.finish)
    }
}

// ── laws ────────────────────────────────────────────────────────────

/// The seam serves just the calls for the stream of the model, once the bridge
/// is there; any other is refused by a code.
pub proof fn law_seam_serves_the_stream(method: Seq<char>, params: Json, attached: bool)
    ensures
        seam_refusal(method, params, attached) is None <==> {
            &&& method == "svc/call"@
            &&& text_field(params, "service"@) == Some("llm"@)
            &&& text_field(params, "method"@) == Some("stream"@)
            &&& attached
        },
        seam_refusal(method, params, attached) is Some ==> {
            let code = seam_refusal(method, params, attached)->0.code;
            if method == "svc/call"@ && text_field(params, "service"@) == Some("llm"@)
                && text_field(params, "method"@) == Some("stream"@) {
                code == "notAttached"@
            } else {
                code == "unhandled"@
            }
        },
        method != "svc/call"@ ==> seam_refusal(method, params, attached)->0.message
            == "llm seam only serves svc/call, got "@ + method,
{
}

/// How the answer ended is what its last finishing piece says; other pieces
/// leave it.
pub proof fn law_ending_is_the_last_finish(ending: Json, part: Json)
    ensures
        field(part, "Finish"@) is Some ==> seam_finish(ending, part) == part,
        field(part, "Finish"@) is None ==> seam_finish(ending, part) == ending,
{
}

/// A model is listed with its name, its owner and its date, and null for what is
/// not known.
pub proof fn law_model_is_listed(m: BriefView)
    ensures
        model_fields(m).dom() == set!["id"@, "owned_by"@, "created"@],
        model_fields(m)["id"@] == Json::Text(m.id),
        m.owned_by is Some ==> model_fields(m)["owned_by"@] == Json::Text(m.owned_by->0),
        m.owned_by is None ==> model_fields(m)["owned_by"@] == Json::Null,
        m.created is Some ==> model_fields(m)["created"@] == Json::Int(m.created->0 as int),
        m.created is None ==> model_fields(m)["created"@] == Json::Null,
{
    reveal_strlit("id");
    reveal_strlit("owned_by");
    reveal_strlit("created");
    assert("id"@.len() == 2);
    assert("owned_by"@.len() == 8);
    assert("created"@.len() == 7);
    assert(model_fields(m).dom() =~= set!["id"@, "owned_by"@, "created"@]);
}

/// An answer lists all models, in their order, and no other.
pub proof fn law_all_models_are_listed(j: Json, models: Seq<BriefView>, i: int)
    requires
        lists_models(j, models),
        0 <= i < models.len(),
    ensures
        field(j, "models"@) is Some,
        field(j, "models"@)->0 is Array,
        field(j, "models"@)->0->Array_0.len() == models.len(),
        fields_in(field(j, "models"@)->0->Array_0[i]) == Some(model_fields(models[i])),
{
    let items = field(j, "models"@)->0->Array_0;
    assert(fields_in(items[i]) == Some(model_fields(models[i])));
}

/// A text that is there is shown with its quotation marks, a missing one by
/// name.
pub proof fn law_option_is_shown(s: Seq<char>)
    ensures
        shown_option(Some(s)) == "Some("@ + quoted(s) + ")"@,
        shown_option(None) == "None"@,
{
}

} // verus!
