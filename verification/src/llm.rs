//! The service that reaches language models: which model a request goes to,
//! what the model is asked, and what is remembered between requests.

use serde_json::Value;
use vstd::prelude::*;

use crate::json;
use crate::json::{field, fields_in, json_of, text_in, Json};
use crate::message::{text_opt, Role};
use crate::text::{decimal, lemma_found_behind, lemma_still_found, number, occurs, same};

verus! {

/// Why a request failed: a code for the caller and a message for people.
#[derive(Debug)]
pub struct LlmServiceError {
    pub code: String,
    pub message: String,
}

#[verifier::ext_equal]
pub struct ServiceErrorView {
    pub code: Seq<char>,
    pub message: Seq<char>,
}

impl View for LlmServiceError {
    type V = ServiceErrorView;

    open spec fn view(&self) -> ServiceErrorView {
        ServiceErrorView { code: self.code@, message: self.message@ }
    }
}

impl LlmServiceError {
    pub fn new(code: &str, message: String) -> (r: Self)
        ensures
            r@ == (ServiceErrorView { code: code@, message: message@ }),
    {
        LlmServiceError { code: code.to_owned(), message }
    }

    /// The error in words.
    pub fn text(&self) -> (r: String)
        ensures
            r@ == self@.code + ": "@ + self@.message,
    {
        let mut out = self.code.clone();
        out.push_str(": ");
        out.push_str(self.message.as_str());
        out
    }
}

/// A model that a provider has.
#[derive(Debug)]
pub struct ModelBrief {
    pub id: String,
    pub owned_by: Option<String>,
    pub created: Option<i64>,
}

#[verifier::ext_equal]
pub struct BriefView {
    pub id: Seq<char>,
    pub owned_by: Option<Seq<char>>,
    pub created: Option<i64>,
}

impl View for ModelBrief {
    type V = BriefView;

    open spec fn view(&self) -> BriefView {
        BriefView { id: self.id@, owned_by: text_opt(self.owned_by), created: self.created }
    }
}

impl Clone for ModelBrief {
    fn clone(&self) -> (r: Self)
        ensures
            r@ == self@,
    {
        ModelBrief {
            id: self.id.clone(),
            owned_by: self.owned_by.clone(),
            created: self.created,
        }
    }
}

/// The views of a sequence of models.
pub open spec fn brief_views(v: Seq<ModelBrief>) -> Seq<BriefView> {
    Seq::new(v.len(), |i: int| v[i]@)
}

/// A message of a prompt. Without a role it is the user's.
#[derive(Debug)]
pub struct MessageSpec {
    pub role: Option<String>,
    pub text: String,
}

/// A tool that is offered to the model.
#[derive(Debug)]
pub struct ToolSpec {
    pub name: String,
    pub description: Option<String>,
    pub parameters: Option<Value>,
}

/// What the model is asked.
#[derive(Debug)]
pub struct PromptSpec {
    pub system: Option<String>,
    pub messages: Vec<MessageSpec>,
    pub tools: Vec<ToolSpec>,
}

/// A request. What it leaves out is filled in from the service; with a key of
/// its own it goes to a model that is made for that key.
#[derive(Debug)]
pub struct StreamRequest {
    pub provider: Option<String>,
    pub model: Option<String>,
    pub api_key: Option<String>,
    pub options: PromptSpec,
}

// ── which model ─────────────────────────────────────────────────────

/// The text, where there is one that is not empty.
pub open spec fn filled(s: Option<Seq<char>>, default: Seq<char>) -> Seq<char> {
    match s {
        Some(s) if s.len() > 0 => s,
        _ => default,
    }
}

fn fill(s: &Option<String>, default: &str) -> (r: String)
    ensures
        r@ == filled(text_opt(*s), default@),
{
    if let Some(s) = s {
        if !s.as_str().is_empty() {
            return s.clone();
        }
    }
    default.to_owned()
}

/// What a model is made for: a key, a provider and the model's name.
#[derive(Debug)]
pub struct ModelKey {
    pub api_key: String,
    pub provider: String,
    pub model: String,
}

#[verifier::ext_equal]
pub struct ModelKeyView {
    pub api_key: Seq<char>,
    pub provider: Seq<char>,
    pub model: Seq<char>,
}

impl View for ModelKey {
    type V = ModelKeyView;

    open spec fn view(&self) -> ModelKeyView {
        ModelKeyView { api_key: self.api_key@, provider: self.provider@, model: self.model@ }
    }
}

impl ModelKey {
    /// Whether both are for the same model.
    fn is(&self, other: &ModelKey) -> (r: bool)
        ensures
            r == (self@ == other@),
    {
        same(self.api_key.as_str(), other.api_key.as_str()) && same(
            self.provider.as_str(),
            other.provider.as_str(),
        ) && same(self.model.as_str(), other.model.as_str())
    }
}

/// What a provider is asked for its models with: its name and a key, which is
/// empty where there is none.
#[derive(Debug)]
pub struct ListKey {
    pub provider: String,
    pub api_key: String,
}

#[verifier::ext_equal]
pub struct ListKeyView {
    pub provider: Seq<char>,
    pub api_key: Seq<char>,
}

impl View for ListKey {
    type V = ListKeyView;

    open spec fn view(&self) -> ListKeyView {
        ListKeyView { provider: self.provider@, api_key: self.api_key@ }
    }
}

/// A model that was made for a key. Models are known to the host by number, in
/// the order in which they were made.
#[derive(Debug)]
pub struct KeyedModel {
    pub key: ModelKey,
    pub model: usize,
}

#[verifier::ext_equal]
pub struct KeyedView {
    pub key: ModelKeyView,
    pub model: nat,
}

impl View for KeyedModel {
    type V = KeyedView;

    open spec fn view(&self) -> KeyedView {
        KeyedView { key: self.key@, model: self.model as nat }
    }
}

/// What a provider was found to have.
#[derive(Debug)]
pub struct Listing {
    pub key: ListKey,
    pub models: Vec<ModelBrief>,
}

#[verifier::ext_equal]
pub struct ListingView {
    pub key: ListKeyView,
    pub models: Seq<BriefView>,
}

impl View for Listing {
    type V = ListingView;

    open spec fn view(&self) -> ListingView {
        ListingView { key: self.key@, models: brief_views(self.models@) }
    }
}

/// The service.
#[derive(Debug)]
pub struct AimuxLlm {
    provider_name: String,
    fallback_model: String,
    keyed: Vec<KeyedModel>,
    listed: Vec<Listing>,
}

#[verifier::ext_equal]
pub struct LlmView {
    pub provider_name: Seq<char>,
    pub fallback_model: Seq<char>,
    pub keyed: Seq<KeyedView>,
    pub listed: Seq<ListingView>,
}

impl View for AimuxLlm {
    type V = LlmView;

    closed spec fn view(&self) -> LlmView {
        LlmView {
            provider_name: self.provider_name@,
            fallback_model: self.fallback_model@,
            keyed: Seq::new(self.keyed@.len(), |i: int| self.keyed@[i]@),
            listed: Seq::new(self.listed@.len(), |i: int| self.listed@[i]@),
        }
    }
}

/// The model that was made for this key.
pub open spec fn keyed_model(v: Seq<KeyedView>, key: ModelKeyView) -> Option<nat>
    decreases v.len(),
{
    if v.len() == 0 {
        None
    } else if v[0].key == key {
        Some(v[0].model)
    } else {
        keyed_model(v.drop_first(), key)
    }
}

/// What was found under this key.
pub open spec fn found(v: Seq<ListingView>, key: ListKeyView) -> Option<Seq<BriefView>>
    decreases v.len(),
{
    if v.len() == 0 {
        None
    } else if v[0].key == key {
        Some(v[0].models)
    } else {
        found(v.drop_first(), key)
    }
}

/// Where a request goes.
#[derive(Debug)]
pub enum ModelChoice {
    /// To the model that the service was set up with.
    Fallback,
    /// To the model of this number.
    Known(usize),
    /// To a model that is yet to be made.
    Build(ModelKey),
}

pub ghost enum ChoiceView {
    Fallback,
    Known(nat),
    Build(ModelKeyView),
}

impl View for ModelChoice {
    type V = ChoiceView;

    open spec fn view(&self) -> ChoiceView {
        match *self {
            ModelChoice::Fallback => ChoiceView::Fallback,
            ModelChoice::Known(n) => ChoiceView::Known(n as nat),
            ModelChoice::Build(key) => ChoiceView::Build(key@),
        }
    }
}

/// The model that a request with a key of its own wants.
pub open spec fn wanted(v: LlmView, req: StreamRequest) -> Option<ModelKeyView> {
    match text_opt(req.api_key) {
        None => None,
        Some(api_key) => Some(
            ModelKeyView {
                api_key,
                provider: filled(text_opt(req.provider), v.provider_name),
                model: filled(text_opt(req.model), v.fallback_model),
            },
        ),
    }
}

/// Where a request goes.
pub open spec fn chosen(v: LlmView, req: StreamRequest) -> ChoiceView {
    match wanted(v, req) {
        None => ChoiceView::Fallback,
        Some(key) => match keyed_model(v.keyed, key) {
            Some(n) => ChoiceView::Known(n),
            None => ChoiceView::Build(key),
        },
    }
}

/// The models are numbered in the order in which they were made.
pub open spec fn is_numbered(v: LlmView) -> bool {
    forall|i: int| 0 <= i < v.keyed.len() ==> (#[trigger] v.keyed[i]).model == i
}

/// What is asked of a provider to learn what it has.
#[derive(Debug)]
pub enum ListChoice {
    /// It is known.
    Known(Vec<ModelBrief>),
    /// The provider is to be asked, with this key where there is one.
    Ask { api_key: Option<String>, key: ListKey },
}

/// The key under which it is kept what a provider has.
pub open spec fn list_key(provider: Seq<char>, api_key: Option<Seq<char>>) -> ListKeyView {
    ListKeyView { provider, api_key: filled(api_key, Seq::empty()) }
}

impl AimuxLlm {
    pub fn new(provider_name: &str, fallback_model: &str) -> (r: Self)
        ensures
            r@ == (LlmView {
                provider_name: provider_name@,
                fallback_model: fallback_model@,
                keyed: Seq::empty(),
                listed: Seq::empty(),
            }),
            is_numbered(r@),
    {
        let r = AimuxLlm {
            provider_name: provider_name.to_owned(),
            fallback_model: fallback_model.to_owned(),
            keyed: Vec::new(),
            listed: Vec::new(),
        };
        assert(r@.keyed =~= Seq::empty());
        assert(r@.listed =~= Seq::empty());
        r
    }

    /// Where a request goes.
    pub fn model_for(&self, req: &StreamRequest) -> (r: ModelChoice)
        ensures
            r@ == chosen(self@, *req),
    {
        let api_key = match &req.api_key {
            Some(k) => k,
            None => {
                return ModelChoice::Fallback;
            },
        };
        let provider = fill(&req.provider, self.provider_name.as_str());
        let model = fill(&req.model, self.fallback_model.as_str());
        let key = ModelKey { api_key: api_key.clone(), provider, model };
        let ghost all = self@.keyed;
        let mut i: usize = 0;
        assert(all.skip(0) =~= all);
        while i < self.keyed.len()
            invariant
                i <= self.keyed@.len(),
                all == self@.keyed,
                keyed_model(all.skip(i as int), key@) == keyed_model(all, key@),
                wanted(self@, *req) == Some(key@),
            decreases self.keyed@.len() - i,
        {
            assert(all.skip(i as int)[0] == self.keyed@[i as int]@);
            if self.keyed[i].key.is(&key) {
                return ModelChoice::Known(self.keyed[i].model);
            }
            assert(all.skip(i as int).drop_first() =~= all.skip(i + 1));
            i = i + 1;
        }
        ModelChoice::Build(key)
    }

    /// Takes how a model was made. Its number is that of the models made
    /// before it.
    pub fn built(&mut self, key: ModelKey, made: Result<(), String>) -> (r: Result<
        usize,
        LlmServiceError,
    >)
        ensures
            match (made, r) {
                (Ok(_), Ok(n)) => {
                    &&& n == old(self)@.keyed.len()
                    &&& final(self)@ == (LlmView {
                        keyed: old(self)@.keyed.push(KeyedView { key: key@, model: n as nat }),
                        ..old(self)@
                    })
                },
                (Err(e), Err(f)) => {
                    &&& f@ == (ServiceErrorView { code: "llmProvider"@, message: e@ })
                    &&& final(self)@ == old(self)@
                },
                _ => false,
            },
            is_numbered(old(self)@) ==> is_numbered(final(self)@),
    {
        match made {
            Ok(_) => {
                let n: usize = self.keyed.len();
                self.keyed.push(KeyedModel { key, model: n });
                assert(self@.keyed =~= old(self)@.keyed.push(
                    KeyedView { key: key@, model: n as nat },
                ));
                assert(self@.listed =~= old(self)@.listed);
                Ok(n)
            },
            Err(e) => Err(LlmServiceError::new("llmProvider", e)),
        }
    }

    /// What is asked of a provider to learn what it has. No key and an empty
    /// one are the same.
    pub fn list_models(&self, provider: &str, api_key: &Option<String>) -> (r: ListChoice)
        ensures
            match r {
                ListChoice::Known(models) => found(
                    self@.listed,
                    list_key(provider@, text_opt(*api_key)),
                ) == Some(brief_views(models@)),
                ListChoice::Ask { api_key: k, key } => {
                    &&& found(self@.listed, key@) is None
                    &&& key@ == list_key(provider@, text_opt(*api_key))
                    &&& text_opt(k) == match text_opt(*api_key) {
                        Some(s) if s.len() > 0 => Some(s),
                        _ => None,
                    }
                },
            },
    {
        let secret = fill(api_key, "");
        proof {
            reveal_strlit("");
            assert(""@ =~= Seq::<char>::empty());
        }
        let key = ListKey { provider: provider.to_owned(), api_key: secret };
        let ghost all = self@.listed;
        let mut i: usize = 0;
        assert(all.skip(0) =~= all);
        while i < self.listed.len()
            invariant
                i <= self.listed@.len(),
                all == self@.listed,
                key@ == list_key(provider@, text_opt(*api_key)),
                found(all.skip(i as int), key@) == found(all, key@),
            decreases self.listed@.len() - i,
        {
            assert(all.skip(i as int)[0] == self.listed@[i as int]@);
            if same(self.listed[i].key.provider.as_str(), key.provider.as_str()) && same(
                self.listed[i].key.api_key.as_str(),
                key.api_key.as_str(),
            ) {
                return ListChoice::Known(copy_briefs(&self.listed[i].models));
            }
            assert(all.skip(i as int).drop_first() =~= all.skip(i + 1));
            i = i + 1;
        }
        let api_key = if key.api_key.as_str().is_empty() {
            None
        } else {
            Some(key.api_key.clone())
        };
        ListChoice::Ask { api_key, key }
    }

    /// Takes what a provider has, and keeps it.
    pub fn models_found(&mut self, key: ListKey, models: Vec<ModelBrief>) -> (r: Vec<ModelBrief>)
        ensures
            brief_views(r@) == brief_views(models@),
            final(self)@ == (LlmView {
                listed: old(self)@.listed.push(
                    ListingView { key: key@, models: brief_views(models@) },
                ),
                ..old(self)@
            }),
    {
        let r = copy_briefs(&models);
        self.listed.push(Listing { key, models });
        assert(self@.listed =~= old(self)@.listed.push(
            ListingView { key: key@, models: brief_views(models@) },
        ));
        assert(self@.keyed =~= old(self)@.keyed);
        r
    }
}

fn copy_briefs(v: &Vec<ModelBrief>) -> (r: Vec<ModelBrief>)
    ensures
        brief_views(r@) == brief_views(v@),
{
    let mut out: Vec<ModelBrief> = Vec::new();
    let mut i: usize = 0;
    while i < v.len()
        invariant
            i <= v@.len(),
            brief_views(out@) =~= brief_views(v@).take(i as int),
        decreases v@.len() - i,
    {
        let ghost before = brief_views(out@);
        out.push(v[i].clone());
        assert(brief_views(out@) =~= before.push(v@[i as int]@));
        i = i + 1;
    }
    assert(brief_views(v@).take(i as int) =~= brief_views(v@));
    out
}

proof fn lemma_keyed_last(v: Seq<KeyedView>, k: KeyedView)
    requires
        keyed_model(v, k.key) is None,
    ensures
        keyed_model(v.push(k), k.key) == Some(k.model),
    decreases v.len(),
{
    if v.len() > 0 {
        assert(v.push(k).drop_first() =~= v.drop_first().push(k));
        lemma_keyed_last(v.drop_first(), k);
    }
}

proof fn lemma_keyed_others(v: Seq<KeyedView>, k: KeyedView, key: ModelKeyView)
    requires
        key != k.key,
    ensures
        keyed_model(v.push(k), key) == keyed_model(v, key),
    decreases v.len(),
{
    if v.len() > 0 {
        assert(v.push(k).drop_first() =~= v.drop_first().push(k));
        lemma_keyed_others(v.drop_first(), k, key);
    } else {
        assert(v.push(k).drop_first() =~= v);
    }
}

proof fn lemma_keyed_at(v: Seq<KeyedView>, key: ModelKeyView)
    requires
        keyed_model(v, key) is Some,
    ensures
        exists|i: int|
            0 <= i < v.len() && (#[trigger] v[i]).key == key && v[i].model == keyed_model(v, key)->0,
    decreases v.len(),
{
    if v[0].key != key {
        lemma_keyed_at(v.drop_first(), key);
        let rest = v.drop_first();
        let i = choose|i: int|
            0 <= i < rest.len() && (#[trigger] rest[i]).key == key && rest[i].model == keyed_model(
                rest,
                key,
            )->0;
        assert(v[i + 1] == rest[i]);
    }
}

/// Two requests share a model that was made only where they agree on the key,
/// the provider and the model.
pub proof fn law_models_are_told_apart(v: LlmView, one: StreamRequest, other: StreamRequest)
    requires
        is_numbered(v),
        chosen(v, one) is Known,
        chosen(v, one) == chosen(v, other),
    ensures
        wanted(v, one) is Some,
        wanted(v, one) == wanted(v, other),
{
    lemma_keyed_at(v.keyed, wanted(v, one)->0);
    lemma_keyed_at(v.keyed, wanted(v, other)->0);
}

/// A model is made once: the same request goes to it again, and requests for
/// other models go where they went before.
pub proof fn law_model_is_made_once(v: LlmView, req: StreamRequest, other: ModelKeyView, n: nat)
    requires
        chosen(v, req) is Build,
    ensures
        ({
            let key = chosen(v, req)->Build_0;
            let w = LlmView { keyed: v.keyed.push(KeyedView { key, model: n }), ..v };
            &&& chosen(w, req) == ChoiceView::Known(n)
            &&& other != key ==> keyed_model(w.keyed, other) == keyed_model(v.keyed, other)
        }),
{
    let key = chosen(v, req)->Build_0;
    lemma_keyed_last(v.keyed, KeyedView { key, model: n });
    if other != key {
        lemma_keyed_others(v.keyed, KeyedView { key, model: n }, other);
    }
}

// ── what the model is asked ─────────────────────────────────────────

/// A message of a prompt, with its role.
#[derive(Debug)]
pub struct PromptMessage {
    pub role: Role,
    pub text: String,
}

#[verifier::ext_equal]
pub struct PromptMessageView {
    pub role: Role,
    pub text: Seq<char>,
}

impl View for PromptMessage {
    type V = PromptMessageView;

    open spec fn view(&self) -> PromptMessageView {
        PromptMessageView { role: self.role, text: self.text@ }
    }
}

/// A tool that the model may call.
#[derive(Debug)]
pub struct FunctionTool {
    pub name: String,
    pub description: Option<String>,
    pub input_schema: Value,
}

/// What a model is called with.
#[derive(Debug)]
pub struct CallOptions {
    pub prompt: Vec<PromptMessage>,
    pub tools: Option<Vec<FunctionTool>>,
}

pub open spec fn prompt_views(v: Seq<PromptMessage>) -> Seq<PromptMessageView> {
    Seq::new(v.len(), |i: int| v[i]@)
}

/// The role of a message: `assistant` and `system` by name, the user's
/// otherwise.
pub open spec fn role_of(role: Option<Seq<char>>) -> Role {
    if role == Some("assistant"@) {
        Role::Assistant
    } else if role == Some("system"@) {
        Role::System
    } else {
        Role::User
    }
}

/// The messages of a prompt: the system's first, then the others in order.
pub open spec fn prompt_of(spec: PromptSpec) -> Seq<PromptMessageView> {
    (match spec.system {
        Some(s) => seq![PromptMessageView { role: Role::System, text: s@ }],
        None => Seq::empty(),
    }) + Seq::new(
        spec.messages@.len(),
        |i: int|
            PromptMessageView {
                role: role_of(text_opt(spec.messages@[i].role)),
                text: spec.messages@[i].text@,
            },
    )
}

/// The tool has a name.
pub open spec fn is_named() -> spec_fn(ToolSpec) -> bool {
    |t: ToolSpec| t.name@.len() > 0
}

/// `f` is the tool `t`; without parameters of its own it takes an object.
pub open spec fn is_tool(f: FunctionTool, t: ToolSpec) -> bool {
    &&& f.name@ == t.name@
    &&& text_opt(f.description) == text_opt(t.description)
    &&& match t.parameters {
        Some(p) => json_of(f.input_schema) == json_of(p),
        None => fields_in(json_of(f.input_schema)) == Some(Map::<Seq<char>, Json>::empty()),
    }
}

/// The tools are those that have a name, in order.
pub open spec fn are_tools(fs: Seq<FunctionTool>, ts: Seq<ToolSpec>) -> bool {
    let named = ts.filter(is_named());
    &&& fs.len() == named.len()
    &&& forall|i: int| 0 <= i < fs.len() ==> is_tool(#[trigger] fs[i], named[i])
}

fn role_from(role: &Option<String>) -> (r: Role)
    ensures
        r == role_of(text_opt(*role)),
{
    match role {
        Some(s) => if same(s.as_str(), "assistant") {
            Role::Assistant
        } else if same(s.as_str(), "system") {
            Role::System
        } else {
            Role::User
        },
        None => Role::User,
    }
}

/// What a model is called with.
pub fn to_call_options(spec: &PromptSpec) -> (r: CallOptions)
    ensures
        prompt_views(r.prompt@) == prompt_of(*spec),
        match r.tools {
            Some(tools) => tools@.len() > 0 && are_tools(tools@, spec.tools@),
            None => spec.tools@.filter(is_named()).len() == 0,
        },
{
    let mut prompt: Vec<PromptMessage> = Vec::new();
    if let Some(s) = &spec.system {
        prompt.push(PromptMessage { role: Role::System, text: s.clone() });
    }
    let ghost all = prompt_of(*spec);
    let ghost first = prompt@.len();
    let mut i: usize = 0;
    assert(prompt_views(prompt@) =~= all.take(first as int));
    while i < spec.messages.len()
        invariant
            i <= spec.messages@.len(),
            all == prompt_of(*spec),
            first == if spec.system is Some {
                1nat
            } else {
                0
            },
            prompt_views(prompt@) == all.take(first + i),
        decreases spec.messages@.len() - i,
    {
        let ghost before = prompt_views(prompt@);
        let m = &spec.messages[i];
        prompt.push(PromptMessage { role: role_from(&m.role), text: m.text.clone() });
        assert(prompt_views(prompt@) =~= before.push(all[first + i]));
        assert(all.take(first + i + 1) =~= all.take(first + i).push(all[first + i]));
        i = i + 1;
    }
    assert(all.take(first + i) =~= all);
    let tools = named_tools(&spec.tools);
    let tools = if tools.len() > 0 {
        Some(tools)
    } else {
        None
    };
    CallOptions { prompt, tools }
}

fn named_tools(specs: &Vec<ToolSpec>) -> (r: Vec<FunctionTool>)
    ensures
        are_tools(r@, specs@),
{
    let mut out: Vec<FunctionTool> = Vec::new();
    let mut i: usize = 0;
    proof {
        reveal(Seq::filter);
        assert(specs@.take(0) =~= Seq::empty());
    }
    while i < specs.len()
        invariant
            i <= specs@.len(),
            are_tools(out@, specs@.take(i as int)),
        decreases specs@.len() - i,
    {
        let t = &specs[i];
        let ghost before = out@;
        proof {
            reveal(Seq::filter);
            assert(specs@.take(i + 1).drop_last() =~= specs@.take(i as int));
            assert(specs@.take(i + 1).last() == *t);
        }
        if !t.name.as_str().is_empty() {
            let input_schema = match &t.parameters {
                Some(p) => p.clone(),
                None => json::empty_object(),
            };
            let f = FunctionTool {
                name: t.name.clone(),
                description: t.description.clone(),
                input_schema,
            };
            out.push(f);
            proof {
                let named = specs@.take(i + 1).filter(is_named());
                assert forall|k: int| 0 <= k < out@.len() implies is_tool(
                    #[trigger] out@[k],
                    named[k],
                ) by {
                    if k < before.len() {
                        assert(out@[k] == before[k]);
                    }
                }
            }
        }
        i = i + 1;
    }
    assert(specs@.take(i as int) =~= specs@);
    out
}

// ── an answer as it comes ───────────────────────────────────────────

/// What was seen of an answer.
#[derive(Debug)]
pub struct StreamLog {
    /// How many pieces came.
    pub chunks: u64,
    /// How the answer ended, as its last piece of that kind says.
    pub finish: Value,
}

/// What a piece says of the end of the answer, where it is the last.
pub open spec fn finish_in(finish: Json, part: Json) -> Json {
    match field(part, "Finish"@) {
        Some(f) => f,
        None => finish,
    }
}

/// The reason why an answer ended, in one word.
pub open spec fn finish_word(finish: Json) -> Seq<char> {
    match field(finish, "finish_reason"@) {
        Some(r) => match field(r, "unified"@) {
            Some(u) => match text_in(u) {
                Some(s) => s,
                None => "-"@,
            },
            None => "-"@,
        },
        None => "-"@,
    }
}

impl StreamLog {
    pub fn new() -> (r: Self)
        ensures
            r.chunks == 0,
            json_of(r.finish) == Json::Null,
    {
        StreamLog { chunks: 0, finish: json::null() }
    }

    /// Takes a piece, as JSON.
    pub fn part(&mut self, part: &Value)
        ensures
            final(self).chunks == if old(self).chunks == u64::MAX {
                u64::MAX
            } else {
                (old(self).chunks + 1) as u64
            },
            json_of(final(self).finish) == finish_in(json_of(old(self).finish), json_of(*part)),
    {
        self.chunks = self.chunks.saturating_add(1);
        if let Some(f) = json::get(part, "Finish") {
            self.finish = f.clone();
        }
    }

    /// The reason why the answer ended, in one word.
    pub fn finish_kind(&self) -> (r: String)
        ensures
            r@ == finish_word(json_of(self.finish)),
    {
        if let Some(reason) = json::get(&self.finish, "finish_reason") {
            if let Some(u) = json::get(reason, "unified") {
                if let Some(s) = u.as_str() {
                    return s.to_owned();
                }
            }
        }
        "-".to_owned()
    }
}

/// What is noted of a request.
pub open spec fn asked_text(req: StreamRequest) -> Seq<char> {
    "[aimux-llm] stream provider="@ + filled(text_opt(req.provider), "-"@) + " model="@ + filled(
        text_opt(req.model),
        "-"@,
    ) + " msgs="@ + decimal(req.options.messages@.len()) + " tools="@ + decimal(
        req.options.tools@.len(),
    ) + " system="@ + (if req.options.system is Some {
        "yes"@
    } else {
        "no"@
    }) + " key="@ + (if req.api_key is Some {
        "request"@
    } else {
        "fallback"@
    })
}

/// What is noted of a request: never its key, only whether it has one.
pub fn asked_line(req: &StreamRequest) -> (r: String)
    ensures
        r@ == asked_text(*req),
{
    let mut out = "[aimux-llm] stream provider=".to_owned();
    out.push_str(fill(&req.provider, "-").as_str());
    out.push_str(" model=");
    out.push_str(fill(&req.model, "-").as_str());
    out.push_str(" msgs=");
    out.push_str(number(req.options.messages.len() as u64).as_str());
    out.push_str(" tools=");
    out.push_str(number(req.options.tools.len() as u64).as_str());
    out.push_str(" system=");
    out.push_str(
        match &req.options.system {
            Some(_) => "yes",
            None => "no",
        },
    );
    out.push_str(" key=");
    out.push_str(
        match &req.api_key {
            Some(_) => "request",
            None => "fallback",
        },
    );
    out
}

/// What is noted of an answer that came to its end.
pub fn done_line(req: &StreamRequest, log: &StreamLog) -> (r: String)
    ensures
        r@ == "[aimux-llm] stream done provider="@ + filled(text_opt(req.provider), "-"@)
            + " model="@ + filled(text_opt(req.model), "-"@) + " chunks="@ + decimal(
            log.chunks as nat,
        ) + " finish="@ + finish_word(json_of(log.finish)),
{
    let mut out = "[aimux-llm] stream done provider=".to_owned();
    out.push_str(fill(&req.provider, "-").as_str());
    out.push_str(" model=");
    out.push_str(fill(&req.model, "-").as_str());
    out.push_str(" chunks=");
    out.push_str(number(log.chunks).as_str());
    out.push_str(" finish=");
    out.push_str(log.finish_kind().as_str());
    out
}

/// Two requests that differ only in their keys are noted alike.
pub proof fn law_keys_are_not_noted(a: StreamRequest, b: StreamRequest)
    requires
        a.provider == b.provider,
        a.model == b.model,
        a.options == b.options,
        a.api_key is Some <==> b.api_key is Some,
    ensures
        asked_text(a) == asked_text(b),
{
}

/// The error of a model that could not be asked.
pub fn stream_error(e: String) -> (r: LlmServiceError)
    ensures
        r@ == (ServiceErrorView { code: "llmStream"@, message: e@ }),
{
    LlmServiceError::new("llmStream", e)
}

/// The error of an answer that broke off.
pub fn stream_part_error(e: String) -> (r: LlmServiceError)
    ensures
        r@ == (ServiceErrorView { code: "llmStreamPart"@, message: e@ }),
{
    LlmServiceError::new("llmStreamPart", e)
}

/// The error of a piece that has no JSON form.
pub fn encode_error(e: String) -> (r: LlmServiceError)
    ensures
        r@ == (ServiceErrorView { code: "encode"@, message: e@ }),
{
    LlmServiceError::new("encode", e)
}

/// The error of a provider that did not say what it has.
pub fn list_error(e: String) -> (r: LlmServiceError)
    ensures
        r@ == (ServiceErrorView { code: "llmListModels"@, message: e@ }),
{
    LlmServiceError::new("llmListModels", e)
}

// ── laws of requests ────────────────────────────────────────────────

/// The system's words come first, and then every message in its place with its
/// own words.
pub proof fn law_prompt_holds_every_message(spec: PromptSpec, i: int)
    requires
        0 <= i < spec.messages@.len(),
    ensures
        ({
            let p = prompt_of(spec);
            let m = spec.messages@[i];
            match spec.system {
                Some(s) => {
                    &&& p.len() == spec.messages@.len() + 1
                    &&& p[0].role is System && p[0].text == s@
                    &&& p[i + 1].text == m.text@
                    &&& p[i + 1].role == role_of(text_opt(m.role))
                },
                None => {
                    &&& p.len() == spec.messages@.len()
                    &&& p[i].text == m.text@
                    &&& p[i].role == role_of(text_opt(m.role))
                },
            }
        }),
{
}

/// A message is the assistant's or the system's only where it says so by name,
/// and the user's in every other case.
pub proof fn law_roles_by_name(role: Option<Seq<char>>)
    ensures
        role_of(role) is Assistant <==> role == Some("assistant"@),
        role_of(role) is System <==> role == Some("system"@),
        role_of(role) is User <==> role != Some("assistant"@) && role != Some("system"@),
        !(role_of(role) is Tool),
{
    reveal_strlit("assistant");
    reveal_strlit("system");
    assert("assistant"@.len() != "system"@.len());
}

/// A request without a key goes to the model that the service was set up with;
/// one with a key never does. What it leaves out, or leaves empty, is filled in
/// from the service, and what it names is taken.
pub proof fn law_request_goes_where_it_asks(v: LlmView, req: StreamRequest)
    ensures
        req.api_key is None <==> chosen(v, req) is Fallback,
        req.api_key is Some ==> {
            let key = wanted(v, req)->0;
            &&& key.api_key == req.api_key->0@
            &&& req.provider is Some && req.provider->0@.len() > 0 ==> key.provider
                == req.provider->0@
            &&& (req.provider is None || req.provider->0@.len() == 0) ==> key.provider
                == v.provider_name
            &&& req.model is Some && req.model->0@.len() > 0 ==> key.model == req.model->0@
            &&& (req.model is None || req.model->0@.len() == 0) ==> key.model == v.fallback_model
        },
        chosen(v, req) is Build ==> wanted(v, req) == Some(chosen(v, req)->Build_0) && keyed_model(
            v.keyed,
            chosen(v, req)->Build_0,
        ) is None,
{
}

/// What a provider was found to have is known under its name and key from then
/// on, and what was known of others stays; no key and an empty one are the
/// same.
pub proof fn law_listing_is_kept(
    v: Seq<ListingView>,
    l: ListingView,
    other: ListKeyView,
    provider: Seq<char>,
)
    ensures
        found(v, l.key) is None ==> found(v.push(l), l.key) == Some(l.models),
        other != l.key ==> found(v.push(l), other) == found(v, other),
        found(v, other) is Some ==> found(v.push(l), other) == found(v, other),
        found(Seq::empty(), other) is None,
        list_key(provider, None) == list_key(provider, Some(Seq::empty())),
        list_key(provider, None).provider == provider,
        forall|key: Seq<char>|
            key.len() > 0 ==> (#[trigger] list_key(provider, Some(key))).api_key == key,
    decreases v.len(),
{
    if v.len() > 0 {
        assert(v.push(l).drop_first() =~= v.drop_first().push(l));
        law_listing_is_kept(v.drop_first(), l, other, provider);
    } else {
        assert(v.push(l).drop_first() =~= v);
    }
}

/// Every tool that has a name is offered, as it is described, and none that has
/// no name.
pub proof fn law_named_tools_are_offered(fs: Seq<FunctionTool>, ts: Seq<ToolSpec>, i: int)
    requires
        are_tools(fs, ts),
        0 <= i < ts.len(),
    ensures
        ts[i].name@.len() > 0 ==> exists|k: int| 0 <= k < fs.len() && is_tool(#[trigger] fs[k], ts[i]),
        forall|k: int| 0 <= k < fs.len() ==> (#[trigger] fs[k]).name@.len() > 0,
        (forall|k: int| 0 <= k < ts.len() ==> (#[trigger] ts[k]).name@.len() > 0) ==> fs.len()
            == ts.len() && is_tool(fs[i], ts[i]),
{
    let p = is_named();
    let named = ts.filter(p);
    broadcast use vstd::seq_lib::group_filter_ensures;

    if ts[i].name@.len() > 0 {
        assert(p(ts[i]));
        assert(named.contains(ts[i]));
        let k = choose|k: int| 0 <= k < named.len() && named[k] == ts[i];
        assert(is_tool(fs[k], named[k]));
    }
    assert forall|k: int| 0 <= k < fs.len() implies (#[trigger] fs[k]).name@.len() > 0 by {
        assert(is_tool(fs[k], named[k]));
        assert(p(named[k]));
    }
    if forall|k: int| 0 <= k < ts.len() ==> (#[trigger] ts[k]).name@.len() > 0 {
        lemma_all_named(ts);
        assert(is_tool(fs[i], named[i]));
    }
}

proof fn lemma_all_named(ts: Seq<ToolSpec>)
    requires
        forall|k: int| 0 <= k < ts.len() ==> (#[trigger] ts[k]).name@.len() > 0,
    ensures
        ts.filter(is_named()) == ts,
    decreases ts.len(),
{
    reveal(Seq::filter);
    if ts.len() > 0 {
        let front = ts.drop_last();
        assert forall|k: int| 0 <= k < front.len() implies (#[trigger] front[k]).name@.len() > 0 by {
            assert(ts[k].name@.len() > 0);
        }
        lemma_all_named(front);
        assert(ts[ts.len() - 1].name@.len() > 0);
        assert(front.push(ts.last()) =~= ts);
    } else {
        assert(ts.filter(is_named()) =~= ts);
    }
}

/// An offered tool is described as it was given; one without parameters takes
/// an empty object.
pub proof fn law_tool_is_described(f: FunctionTool, t: ToolSpec)
    requires
        is_tool(f, t),
    ensures
        f.name@ == t.name@,
        text_opt(f.description) == text_opt(t.description),
        t.parameters is Some ==> json_of(f.input_schema) == json_of(t.parameters->0),
        t.parameters is None ==> fields_in(json_of(f.input_schema)) == Some(
            Map::<Seq<char>, Json>::empty(),
        ),
{
}

/// How an answer ended is what its last finishing piece says, in one word, and
/// a dash where that says nothing.
pub proof fn law_ending_is_noted(finish: Json, part: Json, f: Json, r: Json, u: Json, word: Seq<char>)
    ensures
        field(part, "Finish"@) == Some(f) ==> finish_in(finish, part) == f,
        field(part, "Finish"@) is None ==> finish_in(finish, part) == finish,
        field(f, "finish_reason"@) == Some(r) && field(r, "unified"@) == Some(u) && text_in(u)
            == Some(word) ==> finish_word(f) == word,
        field(f, "finish_reason"@) is None ==> finish_word(f) == "-"@,
        field(f, "finish_reason"@) == Some(r) && field(r, "unified"@) is None ==> finish_word(f)
            == "-"@,
{
}

/// What is noted of a request tells where it goes, how much it holds, and
/// whether it has words of the system and a key of its own.
pub proof fn law_request_is_noted(req: StreamRequest)
    ensures
        ({
            let t = asked_text(req);
            &&& occurs(t, " provider="@ + filled(text_opt(req.provider), "-"@))
            &&& occurs(t, " model="@ + filled(text_opt(req.model), "-"@))
            &&& occurs(t, " msgs="@ + decimal(req.options.messages@.len()))
            &&& occurs(t, " tools="@ + decimal(req.options.tools@.len()))
            &&& req.options.system is Some ==> occurs(t, " system="@ + "yes"@)
            &&& req.options.system is None ==> occurs(t, " system="@ + "no"@)
            &&& req.api_key is Some ==> occurs(t, " key="@ + "request"@)
            &&& req.api_key is None ==> occurs(t, " key="@ + "fallback"@)
        }),
{
    let (l1, l2, l3, l4, l5, l6) = (
        " provider="@,
        " model="@,
        " msgs="@,
        " tools="@,
        " system="@,
        " key="@,
    );
    let v1 = filled(text_opt(req.provider), "-"@);
    let v2 = filled(text_opt(req.model), "-"@);
    let v3 = decimal(req.options.messages@.len());
    let v4 = decimal(req.options.tools@.len());
    let v5 = if req.options.system is Some {
        "yes"@
    } else {
        "no"@
    };
    let v6 = if req.api_key is Some {
        "request"@
    } else {
        "fallback"@
    };
    let s0 = "[aimux-llm] stream"@;
    assert("[aimux-llm] stream provider="@ == s0 + l1) by {
        reveal_strlit("[aimux-llm] stream");
        reveal_strlit(" provider=");
        reveal_strlit("[aimux-llm] stream provider=");
        assert("[aimux-llm] stream provider="@ =~= s0 + l1);
    }
    let s1 = s0 + l1 + v1;
    let s2 = s1 + l2 + v2;
    let s3 = s2 + l3 + v3;
    let s4 = s3 + l4 + v4;
    let s5 = s4 + l5 + v5;
    lemma_found_behind(s0, l1, v1);
    lemma_still_found(s1, l2, v2, l3, v3, l1 + v1);
    lemma_still_found(s3, l4, v4, l5, v5, l1 + v1);
    lemma_still_found(s5, l6, v6, l6, v6, l1 + v1);
    lemma_found_behind(s1, l2, v2);
    lemma_still_found(s2, l3, v3, l4, v4, l2 + v2);
    lemma_still_found(s4, l5, v5, l6, v6, l2 + v2);
    lemma_found_behind(s2, l3, v3);
    lemma_still_found(s3, l4, v4, l5, v5, l3 + v3);
    lemma_still_found(s5, l6, v6, l6, v6, l3 + v3);
    lemma_found_behind(s3, l4, v4);
    lemma_still_found(s4, l5, v5, l6, v6, l4 + v4);
    lemma_found_behind(s4, l5, v5);
    lemma_still_found(s5, l6, v6, l6, v6, l5 + v5);
    lemma_found_behind(s5, l6, v6);
}

} // verus!
