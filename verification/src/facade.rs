//! The externally invokable commands: thin compositions of the
//! registry, the event pump, the search, and the settings document.
//!
//! Each command takes the values the presentation layer read at the
//! boundary (the settings document, a filesystem snapshot, the events a
//! conversation task produced) and returns plain values; every failure
//! is one kind of [`BridgeError`].

use vstd::prelude::*;

use crate::config::Config;
use crate::config::default_overrides;
use crate::config::doc_conflicts;
use crate::config::effective_flag;
use crate::config::effective_model;
use crate::config::from_doc;
use crate::config::opt_view;
use crate::errors::BridgeError;
use crate::ids::fresh_session_id;
use crate::ids::parse_session_id;
use crate::ids::parsed_uuid;
use crate::ids::session_id_text;
use crate::pump::EventSink;
use crate::pump::pump_events;
use crate::pump::pump_trace;
use crate::search::search_cancellable;
use crate::search::search_ranked;
use crate::search::search_spec;
use crate::search::views_of;
use crate::search::CancelFlag;
use crate::session::ConversationHandle;
use crate::session::Event;
use crate::session::InputItem;
use crate::session::Operation;
use crate::session::SessionRegistry;
use crate::session::spec_lookup;
use crate::settings::SettingsDoc;

verus! {

/// The fixed result limit of the search command.
pub const SEARCH_RESULT_LIMIT: usize = 10;

/// Whether an operation is a single-item user text input carrying
/// exactly these characters.
pub open spec fn op_is_user_text(op: Operation, text: Seq<char>) -> bool {
    match op {
        Operation::UserInput { items } => items@.len() == 1 && match items@[0] {
            InputItem::Text { text: t } => t@ == text,
        },
    }
}

/// The message a run submits: the context, where one is given and not
/// empty, prepended to the input with a newline between.
pub open spec fn composed_input(context: Option<String>, input: Seq<char>) -> Seq<char> {
    match context {
        Option::Some(c) => if c@.len() > 0 {
            c@ + seq!['\n'] + input
        } else {
            input
        },
        Option::None => input,
    }
}

/// Prepend the context, where one is given and not empty, with a
/// newline between.
pub fn compose_input(context: &Option<String>, input: String) -> (r: String)
    ensures
        r@ == composed_input(*context, input@),
{
    match context {
        None => input,
        Some(c) => {
            if c.unicode_len() == 0 {
                input
            } else {
                let mut s = c.clone();
                s.append("\n");
                s.append(input.as_str());
                proof {
                    reveal_strlit("\n");
                    assert("\n"@ =~= seq!['\n']);
                    assert(s@ =~= c@ + seq!['\n'] + input@);
                }
                s
            }
        },
    }
}

/// Start a new session: load the effective configuration, construct a
/// conversation task, register it under a fresh identifier, and return
/// the identifier's text form, which parses back to the identifier the
/// registry holds the new session under.
pub fn start_conversation(reg: &mut SessionRegistry, doc: &SettingsDoc) -> (r: Result<
    String,
    BridgeError,
>)
    requires
        old(reg).wf(),
    ensures
        final(reg).wf(),
        doc_conflicts(*doc) <==> r == Err::<String, BridgeError>(BridgeError::ConfigurationError),
        r is Err ==> *final(reg) == *old(reg),
        !doc_conflicts(*doc) ==> r is Ok || r == Err::<String, BridgeError>(
            BridgeError::EngineStartupError,
        ),
        // a startup failure is an identifier collision, so it can only
        // happen against a nonempty registry: on an empty one success
        // is owed
        r == Err::<String, BridgeError>(BridgeError::EngineStartupError) ==> old(
            reg,
        ).sessions@.len() > 0,
        r is Ok ==> ({
            let text = r->Ok_0;
            let h = final(reg).sessions@.last();
            &&& parsed_uuid(text@) == Some(h.id)
            &&& !old(reg).contains_id(h.id)
            &&& final(reg).sessions@ == old(reg).sessions@.push(h)
            &&& h.inbox@.len() == 0
            &&& h.outbox@.len() == 0
            &&& h.cursor == 0
            &&& !h.closed
        }),
{
    let cfg = match from_doc(doc, &default_overrides()) {
        Ok(c) => c,
        Err(e) => {
            return Err(e);
        },
    };
    let id = fresh_session_id();
    let h = ConversationHandle::new(id, cfg, Vec::new());
    match reg.insert(h) {
        Ok(()) => Ok(session_id_text(id)),
        Err(e) => Err(e),
    }
}

/// Submit a user message to the session named by an identifier string.
/// A malformed identifier fails with `IdentifierParseError` before any
/// registry lookup, leaving the registry untouched; an identifier no
/// session carries fails with `UnknownSessionError`; a terminated
/// session fails with `SubmissionError`; otherwise exactly the named
/// session's input queue grows, by one user-text operation carrying the
/// message.
pub fn send_message(reg: &mut SessionRegistry, id_text: &str, message: String) -> (r: Result<
    (),
    BridgeError,
>)
    requires
        old(reg).wf(),
    ensures
        final(reg).wf(),
        parsed_uuid(id_text@) is None ==> r == Err::<(), BridgeError>(
            BridgeError::IdentifierParseError,
        ) && *final(reg) == *old(reg),
        parsed_uuid(id_text@) is Some ==> ({
            let id = parsed_uuid(id_text@)->Some_0;
            &&& !old(reg).contains_id(id) ==> r == Err::<(), BridgeError>(
                BridgeError::UnknownSessionError,
            ) && *final(reg) == *old(reg)
            &&& old(reg).contains_id(id) && spec_lookup(old(reg).sessions@, id)->Some_0.closed
                ==> r == Err::<(), BridgeError>(BridgeError::SubmissionError) && *final(reg)
                == *old(reg)
            &&& old(reg).contains_id(id) && !spec_lookup(old(reg).sessions@, id)->Some_0.closed
                ==> r == Ok::<(), BridgeError>(()) && final(reg).sessions@.len() == old(
                reg,
            ).sessions@.len() && (forall|j: int|
                0 <= j < old(reg).sessions@.len() && (#[trigger] old(reg).sessions@[j]).id != id
                    ==> final(reg).sessions@[j] == old(reg).sessions@[j]) && (forall|j: int|
                0 <= j < old(reg).sessions@.len() && (#[trigger] old(reg).sessions@[j]).id == id
                    ==> ({
                    let before = old(reg).sessions@[j];
                    let after = final(reg).sessions@[j];
                    &&& after.outbox@.len() == before.outbox@.len() + 1
                    &&& after.outbox@.drop_last() == before.outbox@
                    &&& op_is_user_text(after.outbox@.last(), message@)
                    &&& after.id == before.id
                    &&& after.config == before.config
                    &&& after.inbox@ == before.inbox@
                    &&& after.cursor == before.cursor
                    &&& after.closed == before.closed
                }))
        }),
{
    let id = match parse_session_id(id_text) {
        Some(id) => id,
        None => {
            return Err(BridgeError::IdentifierParseError);
        },
    };
    let mut items: Vec<InputItem> = Vec::new();
    items.push(InputItem::Text { text: message });
    let op = Operation::UserInput { items };
    reg.submit_to(id, op)
}

/// Run one conversation end to end: load the configuration, construct a
/// conversation task over the events it will produce, submit the
/// composed message, pump every event to the sink in production order,
/// and register the session. The run's result and what the sink
/// received are exactly what `pump_trace` says of the produced events
/// and the sink's capacity.
pub fn run_session(
    reg: &mut SessionRegistry,
    doc: &SettingsDoc,
    input: String,
    context: Option<String>,
    script: Vec<Event>,
    sink: &mut EventSink,
) -> (r: Result<(), BridgeError>)
    requires
        old(reg).wf(),
    ensures
        final(reg).wf(),
        doc_conflicts(*doc) <==> r == Err::<(), BridgeError>(BridgeError::ConfigurationError),
        r == Err::<(), BridgeError>(BridgeError::ConfigurationError) || r == Err::<
            (),
            BridgeError,
        >(BridgeError::EngineStartupError) ==> *final(reg) == *old(reg) && *final(sink) == *old(
            sink,
        ),
        // a startup failure is an identifier collision, so it can only
        // happen against a nonempty registry: on an empty one the pump
        // runs and its outcome is the result
        r == Err::<(), BridgeError>(BridgeError::EngineStartupError) ==> old(
            reg,
        ).sessions@.len() > 0,
        !doc_conflicts(*doc) && r != Err::<(), BridgeError>(BridgeError::EngineStartupError)
            ==> ({
            let t = pump_trace(script@, old(sink).capacity());
            &&& r == t.outcome
            &&& final(sink).log() == old(sink).log() + t.sent
            &&& final(sink).accept_limit == old(sink).accept_limit
            &&& final(reg).sessions@.len() == old(reg).sessions@.len() + 1
            &&& final(reg).sessions@.drop_last() == old(reg).sessions@
            &&& ({
                let h = final(reg).sessions@.last();
                &&& h.inbox@ == script@
                &&& h.cursor == t.consumed
                &&& h.outbox@.len() == 1
                &&& op_is_user_text(h.outbox@[0], composed_input(context, input@))
                &&& !h.closed
            })
        }),
{
    let cfg = match from_doc(doc, &default_overrides()) {
        Ok(c) => c,
        Err(e) => {
            return Err(e);
        },
    };
    let id = fresh_session_id();
    if let Ok(_existing) = reg.lookup(id) {
        return Err(BridgeError::EngineStartupError);
    }
    let text = compose_input(&context, input);
    let mut h = ConversationHandle::new(id, cfg, script);
    let mut items: Vec<InputItem> = Vec::new();
    items.push(InputItem::Text { text });
    match h.submit(Operation::UserInput { items }) {
        Ok(()) => {},
        Err(e) => {
            return Err(e);
        },
    }
    proof {
        assert(h.unread() =~= h.inbox@);
        crate::pump::lemma_pump_outcome(h.inbox@, sink.capacity());
    }
    let pumped = pump_events(&mut h, sink);
    match reg.insert(h) {
        Ok(()) => {},
        Err(_collision) => {
            return Err(BridgeError::EngineStartupError);
        },
    }
    pumped
}

/// A snapshot of the directory tree under a search root, as the
/// presentation layer walked it: whether the root exists and is a
/// directory, and the candidate paths in traversal order.
pub struct FsSnapshot {
    pub root_is_dir: bool,
    pub entries: Vec<String>,
}

/// Whether a path has a hidden component: one that begins with a dot,
/// at the start of the path or right after a separator.
pub open spec fn is_hidden(s: Seq<char>) -> bool {
    exists|i: int| 0 <= i < s.len() && #[trigger] s[i] == '.' && (i == 0 || s[i - 1] == '/')
}

/// The candidate paths with every hidden one removed, in order.
pub open spec fn visible_of(cs: Seq<Seq<char>>) -> Seq<Seq<char>>
    decreases cs.len(),
{
    if cs.len() == 0 {
        Seq::empty()
    } else {
        visible_of(cs.drop_last()) + (if is_hidden(cs.last()) {
            Seq::<Seq<char>>::empty()
        } else {
            seq![cs.last()]
        })
    }
}

/// Decide whether a path has a hidden component.
pub fn is_hidden_path(p: &str) -> (b: bool)
    ensures
        b == is_hidden(p@),
{
    let len = p.unicode_len();
    let mut i: usize = 0;
    while i < len
        invariant
            i <= len,
            len == p@.len(),
            forall|j: int|
                0 <= j < i ==> !(#[trigger] p@[j] == '.' && (j == 0 || p@[j - 1] == '/')),
        decreases len - i,
    {
        let c = p.get_char(i);
        if c == '.' {
            if i == 0 {
                return true;
            }
            let prev = p.get_char(i - 1);
            if prev == '/' {
                return true;
            }
        }
        i = i + 1;
    }
    false
}

/// Search for paths matching a query under a snapshot of the search
/// root: hidden paths are excluded, at most `SEARCH_RESULT_LIMIT` best
/// matches are returned, ordered by descending score and then discovery
/// order. A missing or non-directory root is an `InvalidRootError`.
pub fn search_files(query: &str, snapshot: &FsSnapshot) -> (r: Result<Vec<String>, BridgeError>)
    requires
        query@.len() > 0,
    ensures
        !snapshot.root_is_dir <==> r == Err::<Vec<String>, BridgeError>(
            BridgeError::InvalidRootError,
        ),
        snapshot.root_is_dir ==> r is Ok && views_of(r->Ok_0@) == search_spec(
            query@,
            visible_of(views_of(snapshot.entries@)),
            SEARCH_RESULT_LIMIT as int,
        ) && r->Ok_0@.len() <= SEARCH_RESULT_LIMIT,
{
    if !snapshot.root_is_dir {
        return Err(BridgeError::InvalidRootError);
    }
    let visible = visible_entries(&snapshot.entries);
    let found = search_ranked(query, &visible, SEARCH_RESULT_LIMIT);
    Ok(found)
}

/// The search command with the caller's cancellation flag, as the
/// search utility itself offers it: as `search_files`, but the scan
/// stops at the step boundary after the flag is set, and whatever
/// partial result set has accumulated is returned as a success — for
/// some prefix of the visible candidates, the result is the exact
/// search result over that prefix, with no more entries than the limit
/// nor than the prefix.
pub fn search_files_cancellable(query: &str, snapshot: &FsSnapshot, cancel: &CancelFlag) -> (r:
    Result<Vec<String>, BridgeError>)
    requires
        query@.len() > 0,
    ensures
        !snapshot.root_is_dir <==> r == Err::<Vec<String>, BridgeError>(
            BridgeError::InvalidRootError,
        ),
        snapshot.root_is_dir ==> r is Ok && exists|n: int|
            0 <= n <= visible_of(views_of(snapshot.entries@)).len() && views_of(r->Ok_0@)
                == search_spec(
                query@,
                #[trigger] visible_of(views_of(snapshot.entries@)).take(n),
                SEARCH_RESULT_LIMIT as int,
            ) && r->Ok_0@.len() <= SEARCH_RESULT_LIMIT && r->Ok_0@.len() <= n,
{
    if !snapshot.root_is_dir {
        return Err(BridgeError::InvalidRootError);
    }
    let visible = visible_entries(&snapshot.entries);
    let found = search_cancellable(query, &visible, SEARCH_RESULT_LIMIT, cancel);
    Ok(found)
}

/// Copy the candidate paths with every hidden one removed, in order.
fn visible_entries(entries: &Vec<String>) -> (visible: Vec<String>)
    ensures
        views_of(visible@) == visible_of(views_of(entries@)),
{
    let ghost all_views = views_of(entries@);
    let mut visible: Vec<String> = Vec::new();
    let mut i: usize = 0;
    proof {
        assert(views_of(visible@) =~= Seq::<Seq<char>>::empty());
        assert(all_views.take(0) =~= Seq::<Seq<char>>::empty());
    }
    while i < entries.len()
        invariant
            i <= entries@.len(),
            all_views == views_of(entries@),
            views_of(visible@) == visible_of(all_views.take(i as int)),
        decreases entries@.len() - i,
    {
        let entry = &entries[i];
        proof {
            assert(all_views[i as int] == entry@);
            assert(all_views.take(i as int + 1).drop_last() =~= all_views.take(i as int));
            assert(all_views.take(i as int + 1).last() == all_views[i as int]);
        }
        if !is_hidden_path(entry.as_str()) {
            let ghost vv = views_of(visible@);
            visible.push(entry.clone());
            proof {
                assert(views_of(visible@) =~= vv.push(entry@));
                assert(visible_of(all_views.take(i as int + 1)) =~= visible_of(
                    all_views.take(i as int),
                ).push(entry@));
            }
        } else {
            proof {
                assert(visible_of(all_views.take(i as int + 1)) =~= visible_of(
                    all_views.take(i as int),
                ));
            }
        }
        i = i + 1;
    }
    proof {
        assert(all_views.take(all_views.len() as int) =~= all_views);
    }
    visible
}

/// Load the current effective configuration from the settings document,
/// with nothing overridden.
pub fn load_settings(doc: &SettingsDoc) -> (r: Result<Config, BridgeError>)
    ensures
        doc_conflicts(*doc) <==> r == Err::<Config, BridgeError>(BridgeError::ConfigurationError),
        r is Err ==> r == Err::<Config, BridgeError>(BridgeError::ConfigurationError),
        r is Ok ==> ({
            let c = r->Ok_0;
            &&& opt_view(c.model) == effective_model(*doc)
            &&& c.disable_response_storage == effective_flag(*doc, "disable_response_storage"@)
            &&& c.hide_agent_reasoning == effective_flag(*doc, "hide_agent_reasoning"@)
            &&& c.cwd is None
            &&& c.approval_policy is None
            &&& c.sandbox_mode is None
            &&& c.model_provider is None
            &&& c.config_profile is None
            &&& c.codex_linux_sandbox_exe is None
            &&& c.base_instructions is None
            &&& !c.include_plan_tool
            &&& !c.include_apply_patch_tool
            &&& !c.include_view_image_tool
            &&& !c.show_raw_agent_reasoning
            &&& !c.tools_web_search_request
        }),
{
    from_doc(doc, &default_overrides())
}

} // verus!
