//! The page-assembly state machine.
//!
//! A page is rendered from a stream of JSON rows.  The header phase
//! ([`HeaderContext`]) collects HTTP headers from `http_header` rows and
//! turns into the body phase ([`RenderContext`]) on the first other row.  The
//! body phase keeps one shell renderer, opened first and closed last, and one
//! inner component renderer, replaced on every component switch; `dynamic`
//! rows expand into synthetic rows, recursively and depth-bounded; errors
//! after the body has begun are rendered inline through the `error`
//! component.
//!
//! Ghostly, the body phase logs every renderer phase transition in a trace of
//! [`PEv`] events, and its invariant says the trace follows the page
//! protocol: the shell opens once, before everything, and closes once, after
//! everything; starts, items and ends of each renderer bracket properly; item
//! indexes count up from zero.  The proof functions at the end of this module
//! state those laws.

use vstd::prelude::*;
use vstd::string::*;
use crate::error::ErrorChain;
use crate::json::{
    component_of, get_object_str, json_get, json_get_ref, json_get_str, json_take, json_to_string,
    parse_json, parsed_json, spec_obj_get_from, str_equal, JsonVal,
};
use crate::split_renderer::SplitTemplateRenderer;
use crate::templates::TemplateStore;

verus! {

/// Rows deeper than this inside `dynamic` expansion are refused.
pub const MAX_RECURSION_DEPTH: usize = 256;

/// One phase transition of a single split-template renderer: the instance
/// opened, rendered the item with the given index, closed, or failed (which
/// also closes it).
pub enum REv {
    Start,
    Item(usize, JsonVal),
    End,
    Abort,
}

/// One event of the page trace: a transition of the shell renderer or of the
/// current inner component renderer.
pub enum PEv {
    Shell(REv),
    Inner(REv),
}

/// Steps the state of one renderer: `(open, next item index)`.
pub open spec fn run_step(st: Option<(bool, nat)>, e: REv) -> Option<(bool, nat)> {
    match st {
        None => None,
        Some((open, idx)) => match e {
            REv::Start => if !open {
                Some((true, 0))
            } else {
                None
            },
            REv::Item(i, _) => if open && i as nat == idx {
                Some((true, idx + 1))
            } else {
                None
            },
            REv::End => if open {
                Some((false, idx))
            } else {
                None
            },
            REv::Abort => if open {
                Some((false, idx))
            } else {
                None
            },
        },
    }
}

/// The state one renderer reaches after a history of transitions, if the
/// history is a lawful run.
pub open spec fn run_state(h: Seq<REv>) -> Option<(bool, nat)>
    decreases h.len(),
{
    if h.len() == 0 {
        Some((false, 0))
    } else {
        run_step(run_state(h.drop_last()), h.last())
    }
}

/// The page-level state: whether the page is finished (the shell has
/// closed), whether the shell has ever opened, and the two renderer states.
pub struct PageSt {
    pub done: bool,
    pub shell_started: bool,
    pub shell: (bool, nat),
    pub inner: (bool, nat),
}

/// The state before any event.
pub open spec fn page_init() -> PageSt {
    PageSt { done: false, shell_started: false, shell: (false, 0nat), inner: (false, 0nat) }
}

/// Steps the page state by one event.  The shell opens only once; an inner
/// renderer opens only after the shell has; the shell closes only while no
/// inner renderer is open, and nothing follows its close.
pub open spec fn page_step(st: Option<PageSt>, e: PEv) -> Option<PageSt> {
    match st {
        None => None,
        Some(s) => if s.done {
            None
        } else {
            match e {
                PEv::Shell(REv::Start) => if !s.shell_started {
                    Some(PageSt { shell_started: true, shell: (true, 0nat), ..s })
                } else {
                    None
                },
                PEv::Shell(REv::End) => if s.shell.0 && !s.inner.0 {
                    Some(PageSt { done: true, shell: (false, s.shell.1), ..s })
                } else {
                    None
                },
                PEv::Shell(ev) => match run_step(Some(s.shell), ev) {
                    Some(sh) => Some(PageSt { shell: sh, ..s }),
                    None => None,
                },
                PEv::Inner(REv::Start) => if s.shell_started && !s.inner.0 {
                    Some(PageSt { inner: (true, 0nat), ..s })
                } else {
                    None
                },
                PEv::Inner(ev) => match run_step(Some(s.inner), ev) {
                    Some(inn) => Some(PageSt { inner: inn, ..s }),
                    None => None,
                },
            }
        },
    }
}

/// The page state a trace reaches, if the trace follows the protocol.
pub open spec fn page_run(t: Seq<PEv>) -> Option<PageSt>
    decreases t.len(),
{
    if t.len() == 0 {
        Some(page_init())
    } else {
        page_step(page_run(t.drop_last()), t.last())
    }
}

/// A trace that follows the page protocol.
pub open spec fn valid_trace(t: Seq<PEv>) -> bool {
    page_run(t) is Some
}

/// One event extends a run by one step.
pub proof fn lemma_page_run_push(t: Seq<PEv>, e: PEv)
    ensures
        page_run(t.push(e)) == page_step(page_run(t), e),
{
    assert(t.push(e).drop_last() =~= t);
    assert(t.push(e).last() == e);
    assert(page_run(t.push(e)) == page_step(page_run(t.push(e).drop_last()), t.push(e).last()));
}

/// Prefixes chain: a prefix of a prefix of a sequence is a prefix of that
/// sequence.
pub proof fn lemma_prefix_trans<T>(a: Seq<T>, b: Seq<T>, c: Seq<T>)
    requires
        a.is_prefix_of(b),
        b.is_prefix_of(c),
    ensures
        a.is_prefix_of(c),
{
    assert(a =~= c.subrange(0, a.len() as int));
}

/// Every sequence is a prefix of itself.
pub proof fn lemma_prefix_refl<T>(a: Seq<T>)
    ensures
        a.is_prefix_of(a),
{
    assert(a =~= a.subrange(0, a.len() as int));
}

/// The synthetic rows a `dynamic` row's `properties` value expands to: the
/// elements of an array in order, a lone object as the one row, or the same
/// rules applied to what a string parses to; `None` when the shape is not
/// accepted.
pub open spec fn dynamic_rows_of(props: JsonVal) -> Option<Seq<JsonVal>> {
    match props {
        JsonVal::Obj(entries) => Some(seq![JsonVal::Obj(entries)]),
        JsonVal::Arr(items) => Some(items@),
        JsonVal::Str(s) => match parsed_json(s@) {
            Some(JsonVal::Obj(entries)) => Some(seq![JsonVal::Obj(entries)]),
            Some(JsonVal::Arr(items)) => Some(items@),
            _ => None,
        },
        _ => None,
    }
}

/// Whether a `dynamic` row's `properties` value has an accepted shape: an
/// array, an object, or a string parsing to one of those.
pub open spec fn dynamic_shape_ok(props: JsonVal) -> bool {
    dynamic_rows_of(props) is Some
}

/// The single synthetic row a top-level `dynamic` row's `properties` yields,
/// when it yields exactly one: the object itself, the sole element of a
/// one-element array, or the same rules applied to what a string parses to.
pub open spec fn top_dynamic_row(props: JsonVal) -> Option<JsonVal> {
    match props {
        JsonVal::Obj(entries) => Some(JsonVal::Obj(entries)),
        JsonVal::Arr(items) => if items@.len() == 1 {
            Some(items@[0])
        } else {
            None
        },
        JsonVal::Str(s) => match parsed_json(s@) {
            Some(JsonVal::Obj(entries)) => Some(JsonVal::Obj(entries)),
            Some(JsonVal::Arr(items)) => if items@.len() == 1 {
                Some(items@[0])
            } else {
                None
            },
            _ => None,
        },
        _ => None,
    }
}

/// The properties the shell is started with for a given first body row: the
/// row itself when it is a `shell` row, the single synthetic row of a
/// top-level `dynamic` row, and null otherwise.
pub open spec fn shell_props_of(initial_row: JsonVal) -> JsonVal {
    match component_of(initial_row) {
        Some(c) => if c == "shell"@ {
            initial_row
        } else if c == "dynamic"@ {
            match json_get(initial_row, "properties"@) {
                Some(p) => match top_dynamic_row(p) {
                    Some(row) => row,
                    None => JsonVal::Null,
                },
                None => JsonVal::Null,
            }
        } else {
            JsonVal::Null
        },
        None => JsonVal::Null,
    }
}

/// The name of the first inner component a first body row opens: the row's
/// own component, or `default` when the row is a `shell` row, a `dynamic`
/// row, or component-less.
pub open spec fn first_component_of(initial_row: JsonVal) -> Seq<char> {
    match component_of(initial_row) {
        Some(c) => if c == "shell"@ || c == "dynamic"@ {
            "default"@
        } else {
            c
        },
        None => "default"@,
    }
}

/// The properties the first inner component is opened with: the row itself
/// when the row begins its own component (a named or component-less row),
/// and null when the row only set the shell up.
pub open spec fn first_props_of(initial_row: JsonVal) -> JsonVal {
    match component_of(initial_row) {
        Some(c) => if c == "shell"@ || c == "dynamic"@ {
            JsonVal::Null
        } else {
            initial_row
        },
        None => initial_row,
    }
}

/// The page events one item row appends: the inner component's item render
/// carrying the row payload, then the shell's interstitial item render
/// carrying null, each only when that renderer is open.
pub open spec fn item_events(
    t: Seq<PEv>,
    inner_open: bool,
    inner_idx: usize,
    data: JsonVal,
    shell_open: bool,
    shell_idx: usize,
) -> Seq<PEv> {
    t + (if inner_open {
        seq![PEv::Inner(REv::Item(inner_idx, data))]
    } else {
        Seq::<PEv>::empty()
    }) + (if shell_open {
        seq![PEv::Shell(REv::Item(shell_idx, JsonVal::Null))]
    } else {
        Seq::<PEv>::empty()
    })
}

/// The page events one inline error rendering appends: the open inner
/// instance closes, the `error` component opens, renders one item carrying
/// the payload, the shell renders its null interstitial item when open, and
/// the `error` component closes.
pub open spec fn error_events(
    t: Seq<PEv>,
    inner_open: bool,
    payload: JsonVal,
    shell_open: bool,
    shell_idx: usize,
) -> Seq<PEv> {
    t + (if inner_open {
        seq![PEv::Inner(REv::End)]
    } else {
        Seq::<PEv>::empty()
    }) + seq![PEv::Inner(REv::Start), PEv::Inner(REv::Item(0, payload))] + (if shell_open {
        seq![PEv::Shell(REv::Item(shell_idx, JsonVal::Null))]
    } else {
        Seq::<PEv>::empty()
    }) + seq![PEv::Inner(REv::End)]
}

/// The rows of `log` tagged with expansion level `d`, in log order.  The
/// body phase logs, ghostly, every synthetic row a `dynamic` expansion
/// dispatches, tagged with the recursion depth it is handled at, so a
/// contract can say which rows one expansion handed on and in what order.
pub open spec fn rows_dispatched(log: Seq<(usize, JsonVal)>, d: usize) -> Seq<JsonVal>
    decreases log.len(),
{
    if log.len() == 0 {
        Seq::empty()
    } else if log.last().0 == d {
        rows_dispatched(log.drop_last(), d).push(log.last().1)
    } else {
        rows_dispatched(log.drop_last(), d)
    }
}

/// Entries of other levels do not change what one level dispatched.
proof fn lemma_dispatched_append_other(
    s: Seq<(usize, JsonVal)>,
    t: Seq<(usize, JsonVal)>,
    d: usize,
)
    requires
        forall|k: int| 0 <= k < t.len() ==> (#[trigger] t[k]).0 != d,
    ensures
        rows_dispatched(s + t, d) == rows_dispatched(s, d),
    decreases t.len(),
{
    if t.len() > 0 {
        assert((s + t).drop_last() =~= s + t.drop_last());
        assert((s + t).last() == t.last());
        lemma_dispatched_append_other(s, t.drop_last(), d);
    } else {
        assert(s + t =~= s);
    }
}

/// Logging one row at level `d` appends it to that level's dispatches.
proof fn lemma_dispatched_push(s: Seq<(usize, JsonVal)>, d: usize, row: JsonVal)
    ensures
        rows_dispatched(s.push((d, row)), d) == rows_dispatched(s, d).push(row),
{
    assert(s.push((d, row)).drop_last() =~= s);
}

/// Whether `payload` is the error-component payload for the 1-based
/// statement number `statement` and the message chain `messages`:
/// `query_number` is the statement number, `description` the outermost
/// message, `backtrace` the remaining messages in order.
pub open spec fn is_error_payload(
    payload: JsonVal,
    statement: usize,
    messages: Seq<Seq<char>>,
) -> bool {
    &&& json_get(payload, "query_number"@) == Some(JsonVal::U64(statement as u64))
    &&& (match json_get(payload, "description"@) {
        Some(JsonVal::Str(s)) => s@ == messages[0],
        _ => false,
    })
    &&& (match json_get(payload, "backtrace"@) {
        Some(JsonVal::Arr(items)) => items@.len() == messages.len() - 1 && forall|i: int|
            0 <= i < items@.len() ==> (#[trigger] items@[i] matches JsonVal::Str(s) && s@
                == messages[i + 1]),
        _ => false,
    })
}

/// The response head the header phase assembles: status, content type and
/// the headers collected from `http_header` rows.
pub struct ResponseSpec {
    pub status: u16,
    pub content_type: String,
    pub headers: Vec<(String, String)>,
}

/// The header fields an `http_header` row asks to insert, in row order, when
/// every field other than `component` holds a string; `None` when one does
/// not.
pub open spec fn hdrs_from(
    entries: Seq<(String, JsonVal)>,
    i: int,
) -> Option<Seq<(Seq<char>, Seq<char>)>>
    decreases entries.len() - i,
{
    if i < 0 || i >= entries.len() {
        Some(Seq::empty())
    } else if entries[i].0@ == "component"@ {
        hdrs_from(entries, i + 1)
    } else {
        match entries[i].1 {
            JsonVal::Str(s) => match hdrs_from(entries, i + 1) {
                Some(rest) => Some(seq![(entries[i].0@, s@)] + rest),
                None => None,
            },
            _ => None,
        }
    }
}

/// The header insertions a row asks for (see [`hdrs_from`]); `None` when the
/// row is not an object or a field value is not a string.
pub open spec fn header_additions(v: JsonVal) -> Option<Seq<(Seq<char>, Seq<char>)>> {
    match v {
        JsonVal::Obj(entries) => hdrs_from(entries@, 0),
        _ => None,
    }
}

/// The first phase of a page: a response head still open for headers, and
/// the body writer not yet begun.
pub struct HeaderContext {
    pub writer: String,
    pub response: ResponseSpec,
}

impl HeaderContext {
    /// A fresh header phase: status 200, HTML content type, no headers yet.
    pub fn new(writer: String) -> (r: Self)
        ensures
            r.writer == writer,
            r.response.status == 200,
            r.response.content_type@ == "text/html; charset=utf-8"@,
            r.response.headers@.len() == 0,
    {
        HeaderContext {
            writer,
            response: ResponseSpec {
                status: 200,
                content_type: "text/html; charset=utf-8".to_owned(),
                headers: Vec::new(),
            },
        }
    }

    /// Feeds one row to the header phase.  An `http_header` row inserts its
    /// fields as response headers and stays in the header phase; any other
    /// row commits the response and begins the body.
    pub fn handle_row(self, store: &TemplateStore, data: JsonVal) -> (r: Result<
        PageContext,
        ErrorChain,
    >)
        ensures
            r matches Ok(p) ==> ((p is Header) <==> component_of(data) == Some("http_header"@)),
            component_of(data) == Some("http_header"@) ==> (match header_additions(data) {
                Some(hs) => r matches Ok(p) && p matches PageContext::Header(h)
                    && h.response.headers.deep_view() == self.response.headers.deep_view() + hs
                    && h.response.status == self.response.status && h.response.content_type
                    == self.response.content_type && h.writer == self.writer,
                None => r is Err,
            }),
            component_of(data) != Some("http_header"@) && !store.has_template("shell"@) ==> r
                is Err,
            component_of(data) != Some("http_header"@) ==> (match r {
                Ok(p) => p matches PageContext::Body { http_response, renderer } && renderer.wf()
                    && renderer.statement() == 1 && renderer.depth() == 0 && http_response
                    == self.response && renderer.events() == seq![
                    PEv::Shell(REv::Start),
                    PEv::Inner(REv::Start),
                ] && self.writer@.is_prefix_of(renderer.written()),
                Err(_) => true,
            }),
    {
        let comp = get_object_str(&data, "component");
        let is_header_row = match &comp {
            Some(c) => str_equal(c, "http_header"),
            None => false,
        };
        if is_header_row {
            match self.add_http_header(&data) {
                Ok(h) => Ok(PageContext::Header(h)),
                Err(e) => Err(e),
            }
        } else {
            self.start_body(store, data)
        }
    }

    /// Inserts every field of the row but `component` as a response header;
    /// a non-string value is refused.
    fn add_http_header(self, data: &JsonVal) -> (r: Result<Self, ErrorChain>)
        ensures
            match header_additions(*data) {
                Some(hs) => r matches Ok(h) && h.response.headers.deep_view()
                    == self.response.headers.deep_view() + hs && h.response.status
                    == self.response.status && h.response.content_type
                    == self.response.content_type && h.writer == self.writer,
                None => r is Err,
            },
    {
        let entries = match data {
            JsonVal::Obj(entries) => entries,
            _ => {
                return Err(ErrorChain::new("expected object".to_owned()));
            },
        };
        let mut headers = self.response.headers;
        let ghost base = headers.deep_view();
        let n = entries.len();
        let mut i: usize = 0;
        while i < n
            invariant
                n == entries@.len(),
                i <= n,
                *data == JsonVal::Obj(*entries),
                base.len() <= headers.deep_view().len(),
                headers.deep_view().subrange(0, base.len() as int) == base,
                match hdrs_from(entries@, i as int) {
                    Some(rest) => hdrs_from(entries@, 0) == Some(
                        headers.deep_view().skip(base.len() as int) + rest,
                    ),
                    None => hdrs_from(entries@, 0) is None,
                },
            decreases n - i,
        {
            let ghost pre = headers.deep_view();
            if !str_equal(&entries[i].0, "component") {
                match &entries[i].1 {
                    JsonVal::Str(s) => {
                        headers.push((entries[i].0.clone(), s.clone()));
                        proof {
                            assert(headers.deep_view() =~= pre.push(
                                (entries@[i as int].0@, entries@[i as int].1->Str_0@),
                            ));
                            assert(headers.deep_view().subrange(0, base.len() as int) =~= base);
                            if hdrs_from(entries@, i + 1) is Some {
                                assert(headers.deep_view().skip(base.len() as int) + hdrs_from(
                                    entries@,
                                    i + 1,
                                )->0 =~= pre.skip(base.len() as int) + hdrs_from(
                                    entries@,
                                    i as int,
                                )->0);
                            }
                        }
                    },
                    _ => {
                        proof {
                            assert(hdrs_from(entries@, i as int) is None);
                        }
                        return Err(
                            ErrorChain::new("http header values must be strings".to_owned()),
                        );
                    },
                }
            }
            i += 1;
        }
        proof {
            assert(hdrs_from(entries@, n as int) == Some(Seq::<(Seq<char>, Seq<char>)>::empty()));
            assert(headers.deep_view().skip(base.len() as int) + Seq::<(
                Seq<char>,
                Seq<char>,
            )>::empty() =~= headers.deep_view().skip(base.len() as int));
            assert(base + headers.deep_view().skip(base.len() as int) =~= headers.deep_view());
        }
        Ok(
            HeaderContext {
                writer: self.writer,
                response: ResponseSpec {
                    status: self.response.status,
                    content_type: self.response.content_type,
                    headers,
                },
            },
        )
    }

    /// Commits the response and opens the body with this row.
    fn start_body(self, store: &TemplateStore, data: JsonVal) -> (r: Result<
        PageContext,
        ErrorChain,
    >)
        ensures
            !store.has_template("shell"@) ==> r is Err,
            match r {
                Ok(p) => p matches PageContext::Body { http_response, renderer } && renderer.wf()
                    && renderer.statement() == 1 && renderer.depth() == 0 && http_response
                    == self.response && renderer.events() == seq![
                    PEv::Shell(REv::Start),
                    PEv::Inner(REv::Start),
                ] && self.writer@.is_prefix_of(renderer.written()),
                Err(_) => true,
            },
    {
        match RenderContext::new(store, self.writer, data) {
            Ok(renderer) => Ok(PageContext::Body { http_response: self.response, renderer }),
            Err(e) => Err(e),
        }
    }
}

/// A page being rendered: still in the header phase, or writing the body.
pub enum PageContext {
    Header(HeaderContext),
    Body { http_response: ResponseSpec, renderer: RenderContext },
}

impl PageContext {
    /// The body-phase invariant, when the body has begun.
    pub open spec fn wf_page(self) -> bool {
        match self {
            PageContext::Header(_) => true,
            PageContext::Body { renderer, .. } => renderer.wf(),
        }
    }

    /// Feeds one row to the page.  In the header phase this may commit the
    /// response; in the body phase every failure is rendered inline through
    /// the `error` component, and only a failure of that inline rendering
    /// itself is returned.
    pub fn step(self, store: &TemplateStore, row: JsonVal) -> (r: Result<PageContext, ErrorChain>)
        requires
            self.wf_page(),
        ensures
            r matches Ok(p) ==> p.wf_page(),
            (match self {
                PageContext::Header(h) => component_of(row) == Some("http_header"@) ==> (
                match header_additions(row) {
                    Some(hs) => r matches Ok(p) && p matches PageContext::Header(h2)
                        && h2.response.headers.deep_view() == h.response.headers.deep_view() + hs
                        && h2.response.status == h.response.status && h2.response.content_type
                        == h.response.content_type && h2.writer == h.writer,
                    None => r is Err,
                }),
                PageContext::Body { .. } => true,
            }),
            (match self {
                PageContext::Header(h) => component_of(row) != Some("http_header"@) ==> (match r {
                    Ok(p) => p matches PageContext::Body { http_response, renderer }
                        && renderer.wf() && http_response == h.response
                        && h.writer@.is_prefix_of(renderer.written()),
                    Err(_) => true,
                }) && (!store.has_template("shell"@) ==> r is Err),
                PageContext::Body { .. } => true,
            }),
            (match self {
                PageContext::Body { http_response, renderer } => (match r {
                    Ok(p) => p matches PageContext::Body { http_response: h2, renderer: r2 }
                        && h2 == http_response && r2.wf() && r2.depth() == renderer.depth()
                        && r2.statement() == renderer.statement()
                        && renderer.written().is_prefix_of(r2.written())
                        && renderer.events().is_prefix_of(r2.events())
                        && (component_of(row) == Some("http_header"@) ==> !r2.inner_open()
                        && exists|p: JsonVal|
                        #[trigger] is_error_payload(
                            p,
                            renderer.statement(),
                            seq![
                                "The http_header component can not be used in the body of the page, only as the very first component in the page. The HTTP headers have already be sent for the current page, they cannot be changed now."@,
                            ],
                        ) && r2.events() == error_events(
                            renderer.events(),
                            renderer.inner_open(),
                            p,
                            renderer.shell_open(),
                            renderer.shell_idx(),
                        )),
                    Err(_) => true,
                }),
                PageContext::Header(_) => true,
            }),
    {
        match self {
            PageContext::Header(h) => h.handle_row(store, row),
            PageContext::Body { http_response, renderer } => {
                let mut renderer = renderer;
                let ghost w0 = renderer.written();
                let ghost e0 = renderer.events();
                match renderer.handle_row(store, &row) {
                    Ok(_) => {},
                    Err(e) => {
                        let ghost w1 = renderer.written();
                        let ghost e1 = renderer.events();
                        match renderer.handle_error(store, &e) {
                            Ok(_) => {},
                            Err(e2) => {
                                return Err(e2);
                            },
                        }
                        proof {
                            lemma_prefix_trans(w0, w1, renderer.written());
                            lemma_prefix_trans(e0, e1, renderer.events());
                        }
                    },
                }
                Ok(PageContext::Body { http_response, renderer })
            },
        }
    }

    /// Finishes the page: a page still in the header phase is given an empty
    /// body through the default shell transition; a body is closed.  Returns
    /// the response head and the rendered body.
    pub fn finish(self, store: &TemplateStore) -> (r: Result<(ResponseSpec, String), ErrorChain>)
        requires
            self.wf_page(),
        ensures
            self matches PageContext::Body { .. } ==> r is Ok,
            self matches PageContext::Header(_) && !store.has_template("shell"@) ==> r is Err,
            (match self {
                PageContext::Body { http_response, renderer } => r matches Ok(pair) && pair.0
                    == http_response && renderer.written().is_prefix_of(pair.1@),
                PageContext::Header(h) => (match r {
                    Ok(pair) => pair.0 == h.response && h.writer@.is_prefix_of(pair.1@),
                    Err(_) => true,
                }),
            }),
    {
        match self {
            PageContext::Header(h) => {
                let ghost w0 = h.writer@;
                match h.handle_row(store, JsonVal::Null) {
                    Ok(PageContext::Body { http_response, renderer }) => {
                        let mut renderer = renderer;
                        let ghost w1 = renderer.written();
                        let out = renderer.close(store);
                        proof {
                            lemma_prefix_trans(w0, w1, out@);
                        }
                        Ok((http_response, out))
                    },
                    Ok(PageContext::Header(_)) => Err(
                        ErrorChain::new("the empty row cannot be an http_header row".to_owned()),
                    ),
                    Err(e) => Err(e),
                }
            },
            PageContext::Body { http_response, renderer } => {
                let mut renderer = renderer;
                let out = renderer.close(store);
                Ok((http_response, out))
            },
        }
    }
}

/// The body phase: the shell renderer, the current inner component renderer,
/// the dynamic recursion depth, the 1-based statement counter used for error
/// attribution, and the body writer.
pub struct RenderContext {
    pub writer: String,
    current_component: SplitTemplateRenderer,
    shell_renderer: SplitTemplateRenderer,
    recursion_depth: usize,
    current_statement: usize,
    trace: Ghost<Seq<PEv>>,
    expanded: Ghost<Seq<(usize, JsonVal)>>,
}

impl RenderContext {
    /// The page trace so far.
    pub closed spec fn events(self) -> Seq<PEv> {
        self.trace@
    }

    /// The synthetic rows `dynamic` expansions have dispatched so far, each
    /// tagged with the recursion depth it was handled at.
    pub closed spec fn expansions(self) -> Seq<(usize, JsonVal)> {
        self.expanded@
    }

    /// The body text written so far.
    pub closed spec fn written(self) -> Seq<char> {
        self.writer@
    }

    /// The dynamic recursion depth.
    pub closed spec fn depth(self) -> usize {
        self.recursion_depth
    }

    /// The 1-based index of the statement whose rows are being consumed.
    pub closed spec fn statement(self) -> usize {
        self.current_statement
    }

    /// Whether the inner component renderer is open.
    pub closed spec fn inner_open(self) -> bool {
        self.current_component.is_open()
    }

    /// Whether the shell renderer is open.
    pub closed spec fn shell_open(self) -> bool {
        self.shell_renderer.is_open()
    }

    /// The item counter of the inner component renderer.
    pub closed spec fn inner_idx(self) -> usize {
        self.current_component.idx()
    }

    /// The item counter of the shell renderer.
    pub closed spec fn shell_idx(self) -> usize {
        self.shell_renderer.idx()
    }

    /// The template the inner component renderer holds.
    pub closed spec fn inner_template(self) -> crate::templates::SplitTemplate {
        self.current_component.spec_template()
    }

    /// The component name of the inner component renderer's template.
    pub open spec fn inner_name(self) -> Seq<char> {
        self.inner_template().spec_name()
    }

    /// The template the shell renderer holds.
    pub closed spec fn shell_template(self) -> crate::templates::SplitTemplate {
        self.shell_renderer.spec_template()
    }

    /// The page-level data the shell was started with.
    pub closed spec fn shell_data(self) -> JsonVal {
        self.shell_renderer.data_of()
    }

    /// The properties the inner component was last started with.
    pub closed spec fn inner_data(self) -> JsonVal {
        self.current_component.data_of()
    }

    /// The body-phase invariant: the trace follows the page protocol, is not
    /// finished, has opened the shell, and its state agrees with the two
    /// renderers; the recursion depth is within its bound.
    pub closed spec fn wf(self) -> bool {
        match page_run(self.trace@) {
            Some(st) => {
                &&& !st.done
                &&& st.shell_started
                &&& st.shell.0 == self.shell_renderer.is_open()
                &&& (st.shell.0 ==> st.shell.1 == self.shell_renderer.idx() as nat)
                &&& st.inner.0 == self.current_component.is_open()
                &&& (st.inner.0 ==> st.inner.1 == self.current_component.idx() as nat)
                &&& self.recursion_depth <= MAX_RECURSION_DEPTH + 1
            },
            None => false,
        }
    }

    /// Hands the body text written so far over to the caller and leaves the
    /// writer empty, so the response can be streamed row by row instead of
    /// accumulating; rendering then carries on where it left off.
    pub fn take_output(&mut self) -> (out: String)
        requires
            old(self).wf(),
        ensures
            final(self).wf(),
            out@ == old(self).written(),
            final(self).written() == Seq::<char>::empty(),
            final(self).events() == old(self).events(),
            final(self).depth() == old(self).depth(),
            final(self).statement() == old(self).statement(),
            final(self).inner_open() == old(self).inner_open(),
            final(self).inner_idx() == old(self).inner_idx(),
            final(self).inner_template() == old(self).inner_template(),
            final(self).shell_open() == old(self).shell_open(),
            final(self).shell_template() == old(self).shell_template(),
            final(self).expansions() == old(self).expansions(),
    {
        let mut out: String = String::new();
        core::mem::swap(&mut out, &mut self.writer);
        out
    }

    /// The statement counter, at run time.
    pub fn statement_index(&self) -> (r: usize)
        ensures
            r == self.statement(),
    {
        self.current_statement
    }

    /// Opens the body with its first row.  The shell template must exist; it
    /// is resolved and opened exactly once, with the row itself as its
    /// properties when the row is a `shell` row, with the single synthetic
    /// row of a top-level `dynamic` row (which must be a `shell` row or
    /// component-less), and with null properties otherwise.  Then the first
    /// inner component is resolved and opened: the row's own component (with
    /// the row as properties), or `default` (with null properties).
    pub fn new(store: &TemplateStore, writer: String, initial_row: JsonVal) -> (r: Result<
        RenderContext,
        ErrorChain,
    >)
        ensures
            !store.has_template("shell"@) ==> r is Err,
            (match component_of(initial_row) {
                Some(c) => c == "dynamic"@ && (match json_get(initial_row, "properties"@) {
                    None => true,
                    Some(p) => match top_dynamic_row(p) {
                        None => true,
                        Some(row) => !(component_of(row) is None || component_of(row) == Some(
                            "shell"@,
                        )),
                    },
                }),
                None => false,
            }) ==> r is Err,
            (match component_of(initial_row) {
                Some(c) => c != "shell"@ && c != "dynamic"@ && !store.has_template(c),
                None => !store.has_template("default"@),
            }) ==> r is Err,
            r matches Ok(c) ==> c.wf() && c.depth() == 0 && c.statement() == 1 && c.inner_open()
                && c.shell_open() && c.events() == seq![
                PEv::Shell(REv::Start),
                PEv::Inner(REv::Start),
            ],
            r matches Ok(c) ==> Some(c.shell_template()) == store.spec_resolve("shell"@)
                && Some(c.inner_template()) == store.spec_resolve(
                first_component_of(initial_row),
            ) && c.shell_data() == shell_props_of(initial_row) && c.inner_data()
                == first_props_of(initial_row),
            r matches Ok(c) ==> writer@.is_prefix_of(c.written()),
            r matches Ok(c) ==> c.expansions() == Seq::<(usize, JsonVal)>::empty(),
    {
        let shell_template = match store.resolve("shell") {
            Some(t) => t.clone(),
            None => {
                return Err(
                    ErrorChain::new(
                        "The shell component should always exist".to_owned(),
                    ),
                );
            },
        };
        let mut shell_renderer = SplitTemplateRenderer::new(shell_template);

        let comp = get_object_str(&initial_row, "component");
        let mut shell_properties = JsonVal::Null;
        let mut first_component: Option<String> = None;
        let mut first_properties = JsonVal::Null;
        match comp {
            Some(c) => {
                if str_equal(&c, "shell") {
                    proof {
                        reveal_strlit("shell");
                        reveal_strlit("dynamic");
                        assert("shell"@.len() == 5);
                        assert("dynamic"@.len() == 7);
                    }
                    shell_properties = initial_row;
                } else if str_equal(&c, "dynamic") {
                    proof {
                        reveal_strlit("shell");
                        reveal_strlit("dynamic");
                        assert("shell"@.len() == 5);
                        assert("dynamic"@.len() == 7);
                    }
                    match Self::single_dynamic_row(initial_row) {
                        Ok(row) => {
                            shell_properties = row;
                        },
                        Err(e) => {
                            return Err(e);
                        },
                    }
                } else {
                    first_component = Some(c);
                    first_properties = initial_row;
                }
            },
            None => {
                first_properties = initial_row;
            },
        }

        let mut writer = writer;
        let ghost w0 = writer@;
        match shell_renderer.render_start(&mut writer, &shell_properties) {
            Ok(_) => {},
            Err(e) => {
                return Err(e.with_context("rendering the shell header".to_owned()));
            },
        }
        let ghost w1 = writer@;

        let first_name: String = match first_component {
            Some(c) => c,
            None => "default".to_owned(),
        };
        let first_template = match store.resolve(first_name.as_str()) {
            Some(t) => t.clone(),
            None => {
                let mut msg: String =
                    "Unable to open the rendering context because opening the component failed: "
                    .to_owned();
                msg.append(first_name.as_str());
                return Err(ErrorChain::new(msg));
            },
        };
        let mut current_component = SplitTemplateRenderer::new(first_template);
        match current_component.render_start(&mut writer, &first_properties) {
            Ok(_) => {},
            Err(e) => {
                return Err(e.with_context("opening the first component".to_owned()));
            },
        }
        proof {
            lemma_prefix_trans(w0, w1, writer@);
        }

        let ghost t0 = Seq::<PEv>::empty();
        let ghost t1 = t0.push(PEv::Shell(REv::Start));
        let ghost t2 = t1.push(PEv::Inner(REv::Start));
        proof {
            lemma_page_run_push(t0, PEv::Shell(REv::Start));
            lemma_page_run_push(t1, PEv::Inner(REv::Start));
            assert(t2 =~= seq![PEv::Shell(REv::Start), PEv::Inner(REv::Start)]);
        }
        Ok(
            RenderContext {
                writer,
                current_component,
                shell_renderer,
                recursion_depth: 0,
                current_statement: 1,
                trace: Ghost(t2),
                expanded: Ghost(Seq::empty()),
            },
        )
    }

    /// The single synthetic row a top-level `dynamic` row must expand to; it
    /// must itself be a `shell` row or component-less, and its payload
    /// becomes the shell properties.
    fn single_dynamic_row(initial_row: JsonVal) -> (r: Result<JsonVal, ErrorChain>)
        ensures
            match json_get(initial_row, "properties"@) {
                None => r is Err,
                Some(p) => match top_dynamic_row(p) {
                    None => r is Err,
                    Some(row) => if component_of(row) is None || component_of(row) == Some(
                        "shell"@,
                    ) {
                        r matches Ok(out) && out == row
                    } else {
                        r is Err
                    },
                },
            },
    {
        let props = match json_take(initial_row, "properties") {
            Some(p) => p,
            None => {
                return Err(ErrorChain::new("Missing 'properties' key.".to_owned()));
            },
        };
        let single = match props {
            JsonVal::Obj(entries) => JsonVal::Obj(entries),
            JsonVal::Arr(mut items) => {
                if items.len() != 1 {
                    return Err(
                        ErrorChain::new(
                            "Dynamic components at the top level are not supported, except for setting the shell component properties".to_owned(),
                        ),
                    );
                }
                items.remove(0)
            },
            JsonVal::Str(s) => {
                let parsed = match parse_json(&s) {
                    Ok(v) => v,
                    Err(e) => {
                        return Err(
                            ErrorChain::new(e).with_context("parsing json properties".to_owned()),
                        );
                    },
                };
                match parsed {
                    JsonVal::Obj(entries) => JsonVal::Obj(entries),
                    JsonVal::Arr(mut items) => {
                        if items.len() != 1 {
                            return Err(
                                ErrorChain::new(
                                    "Dynamic components at the top level are not supported, except for setting the shell component properties".to_owned(),
                                ),
                            );
                        }
                        items.remove(0)
                    },
                    _ => {
                        return Err(
                            ErrorChain::new(
                                "Expected properties string to parse as array or object".to_owned(),
                            ),
                        );
                    },
                }
            },
            _ => {
                return Err(
                    ErrorChain::new("Expected properties of type array or object".to_owned()),
                );
            },
        };
        let comp = get_object_str(&single, "component");
        let ok = match &comp {
            None => true,
            Some(c) => str_equal(c, "shell"),
        };
        if ok {
            Ok(single)
        } else {
            Err(
                ErrorChain::new(
                    "Dynamic components at the top level are not supported, except for setting the shell component properties".to_owned(),
                ),
            )
        }
    }

    /// Feeds one body row to the page.  A `dynamic` row expands; an
    /// `http_header` row is refused (the headers are already on the wire); a
    /// row naming another component closes the current one and opens the
    /// named one with the row as properties; a component-less row renders
    /// one item in the current component, then one interstitial null item in
    /// the shell.
    pub fn handle_row(&mut self, store: &TemplateStore, data: &JsonVal) -> (r: Result<
        (),
        ErrorChain,
    >)
        requires
            old(self).wf(),
        ensures
            final(self).wf(),
            final(self).depth() == old(self).depth(),
            final(self).statement() == old(self).statement(),
            component_of(*data) == Some("http_header"@) ==> (r matches Err(e)
                && e.messages() == seq![
                "The http_header component can not be used in the body of the page, only as the very first component in the page. The HTTP headers have already be sent for the current page, they cannot be changed now."@,
            ]) && *final(self) == *old(self),
            component_of(*data) is None && old(self).inner_open() && r is Ok
                ==> final(self).inner_open() && final(self).inner_idx() == old(self).inner_idx()
                + 1,
            component_of(*data) is None && r is Ok ==> final(self).events() == item_events(
                old(self).events(),
                old(self).inner_open(),
                old(self).inner_idx(),
                *data,
                old(self).shell_open(),
                old(self).shell_idx(),
            ),
            (match component_of(*data) {
                Some(c) => (c != "dynamic"@ && c != "http_header"@ && old(self).inner_open()
                    && c == old(self).inner_name() && r is Ok) ==> final(self).inner_open()
                    && final(self).inner_idx() == old(self).inner_idx() + 1
                    && final(self).inner_template() == old(self).inner_template()
                    && final(self).events() == item_events(
                    old(self).events(),
                    old(self).inner_open(),
                    old(self).inner_idx(),
                    *data,
                    old(self).shell_open(),
                    old(self).shell_idx(),
                ),
                None => true,
            }),
            (match component_of(*data) {
                Some(c) => (c != "dynamic"@ && c != "http_header"@ && !(old(self).inner_open()
                    && c == old(self).inner_name()) && r is Ok) ==> final(self).inner_open()
                    && final(self).inner_idx() == 0 && Some(final(self).inner_template())
                    == store.spec_resolve(c),
                None => true,
            }),
            component_of(*data) == Some("dynamic"@) && (match json_get(*data, "properties"@) {
                Some(p) => !dynamic_shape_ok(p),
                None => true,
            }) ==> r is Err,
            component_of(*data) == Some("dynamic"@) && old(self).depth() <= MAX_RECURSION_DEPTH
                && (match json_get(*data, "properties"@) {
                Some(p) => dynamic_rows_of(p) == Some(Seq::<JsonVal>::empty()),
                None => false,
            }) ==> r is Ok && final(self).events() == old(self).events(),
            component_of(*data) is None && !old(self).inner_open() && !old(self).shell_open()
                ==> r is Ok && final(self).written() == old(self).written()
                && final(self).events() == old(self).events() && !final(self).inner_open()
                && !final(self).shell_open(),
            component_of(*data) != Some("dynamic"@) ==> final(self).expansions() == old(
                self,
            ).expansions(),
            old(self).expansions().is_prefix_of(final(self).expansions()),
            forall|k: int|
                old(self).expansions().len() <= k < final(self).expansions().len() ==> (
                #[trigger] final(self).expansions()[k]).0 > old(self).depth(),
            component_of(*data) == Some("dynamic"@) && old(self).depth() <= MAX_RECURSION_DEPTH ==> (match json_get(*data, "properties"@) {
                Some(p) => (match dynamic_rows_of(p) {
                    Some(rows) => {
                        let added = final(self).expansions().skip(
                            old(self).expansions().len() as int,
                        );
                        &&& final(self).expansions() == old(self).expansions() + added
                        &&& (r is Ok ==> rows_dispatched(
                            added,
                            (old(self).depth() + 1) as usize,
                        ) == rows)
                        &&& (r is Err ==> exists|k: int|
                            0 <= k <= rows.len() && rows_dispatched(
                                added,
                                (old(self).depth() + 1) as usize,
                            ) == #[trigger] rows.take(k))
                    },
                    None => true,
                }),
                None => true,
            }),
            old(self).written().is_prefix_of(final(self).written()),
            old(self).events().is_prefix_of(final(self).events()),
            r matches Err(e) ==> e.wf(),
        decreases MAX_RECURSION_DEPTH + 2 - self.depth(), 1int,
    {
        proof {
            lemma_prefix_refl(old(self).expansions());
        }
        let comp = get_object_str(data, "component");
        match comp {
            Some(c) => {
                if str_equal(&c, "dynamic") {
                    proof {
                        reveal_strlit("dynamic");
                        reveal_strlit("http_header");
                        assert("dynamic"@.len() == 7);
                        assert("http_header"@.len() == 11);
                        assert(component_of(*data) == Some(c@));
                    }
                    match self.render_dynamic(store, data) {
                        Ok(_) => Ok(()),
                        Err(e) => {
                            let mut msg: String =
                                "Unable to render dynamic component with properties ".to_owned();
                            msg.append(json_to_string(data).as_str());
                            Err(e.with_context(msg))
                        },
                    }
                } else if str_equal(&c, "http_header") {
                    Err(
                        ErrorChain::new(
                            "The http_header component can not be used in the body of the page, only as the very first component in the page. The HTTP headers have already be sent for the current page, they cannot be changed now.".to_owned(),
                        ),
                    )
                } else {
                    let same = self.current_component.opened() && *self.current_component.name()
                        == c;
                    if same {
                        self.render_current_template_with_data(store, data)
                    } else {
                        match self.open_component_with_data(store, &c, data) {
                            Ok(_) => Ok(()),
                            Err(e) => Err(e),
                        }
                    }
                }
            },
            None => self.render_current_template_with_data(store, data),
        }
    }

    /// Expands a `dynamic` row: its `properties` field (an array, an object,
    /// or a string parsing to one) yields synthetic rows, each handled in
    /// order at one more level of depth, stopping at the first failure.  Past
    /// the depth bound the expansion is refused before it begins.  The depth
    /// is back at its entry value when this returns, success or failure.
    #[verifier::rlimit(60)]
    fn render_dynamic(&mut self, store: &TemplateStore, data: &JsonVal) -> (r: Result<
        (),
        ErrorChain,
    >)
        requires
            old(self).wf(),
        ensures
            final(self).wf(),
            final(self).depth() == old(self).depth(),
            final(self).statement() == old(self).statement(),
            old(self).depth() > MAX_RECURSION_DEPTH ==> r is Err && *final(self) == *old(self),
            (match json_get(*data, "properties"@) {
                Some(p) => !dynamic_shape_ok(p),
                None => true,
            }) ==> r is Err,
            old(self).depth() <= MAX_RECURSION_DEPTH && (match json_get(*data, "properties"@) {
                Some(p) => dynamic_rows_of(p) == Some(Seq::<JsonVal>::empty()),
                None => false,
            }) ==> r is Ok && final(self).events() == old(self).events(),
            old(self).expansions().is_prefix_of(final(self).expansions()),
            forall|k: int|
                old(self).expansions().len() <= k < final(self).expansions().len() ==> (
                #[trigger] final(self).expansions()[k]).0 > old(self).depth(),
            old(self).depth() <= MAX_RECURSION_DEPTH ==> (match json_get(*data, "properties"@) {
                Some(p) => (match dynamic_rows_of(p) {
                    Some(rows) => {
                        let added = final(self).expansions().skip(
                            old(self).expansions().len() as int,
                        );
                        &&& final(self).expansions() == old(self).expansions() + added
                        &&& (r is Ok ==> rows_dispatched(
                            added,
                            (old(self).depth() + 1) as usize,
                        ) == rows)
                        &&& (r is Err ==> exists|k: int|
                            0 <= k <= rows.len() && rows_dispatched(
                                added,
                                (old(self).depth() + 1) as usize,
                            ) == #[trigger] rows.take(k))
                    },
                    None => true,
                }),
                None => true,
            }),
            old(self).written().is_prefix_of(final(self).written()),
            old(self).events().is_prefix_of(final(self).events()),
            r matches Err(e) ==> e.wf(),
        decreases MAX_RECURSION_DEPTH + 2 - self.depth(), 0int,
    {
        proof {
            lemma_prefix_refl(old(self).written());
            lemma_prefix_refl(old(self).events());
            lemma_prefix_refl(old(self).expansions());
        }
        if self.recursion_depth > MAX_RECURSION_DEPTH {
            return Err(
                ErrorChain::new(
                    "Maximum recursion depth exceeded in the dynamic component.".to_owned(),
                ),
            );
        }
        let props = match json_get_ref(data, "properties") {
            Some(p) => p,
            None => {
                return Err(ErrorChain::new("Missing 'properties' key.".to_owned()));
            },
        };
        match props {
            JsonVal::Obj(_) => {
                proof {
                    assert(dynamic_rows_of(*props) == Some(seq![JsonVal::Obj(props->Obj_0)]));
                    assert(seq![JsonVal::Obj(props->Obj_0)].len() == 1);
                }
                let ghost d1: usize = (self.recursion_depth + 1) as usize;
                let ghost row0 = *props;
                self.expanded = Ghost(self.expanded@.push((d1, row0)));
                let ghost pre_call = self.expanded@;
                self.recursion_depth = self.recursion_depth + 1;
                let res = self.handle_row(store, props);
                self.recursion_depth = self.recursion_depth - 1;
                proof {
                    let newly = self.expanded@.skip(pre_call.len() as int);
                    assert(self.expanded@ =~= pre_call + newly);
                    assert forall|k: int| 0 <= k < newly.len() implies (#[trigger] newly[k]).0
                        != d1 by {
                        assert(newly[k] == self.expanded@[pre_call.len() + k]);
                    }
                    let added = seq![(d1, row0)] + newly;
                    assert(self.expanded@ =~= old(self).expanded@ + added);
                    assert(self.expanded@.skip(old(self).expanded@.len() as int) =~= added);
                    lemma_dispatched_append_other(seq![(d1, row0)], newly, d1);
                    assert(seq![(d1, row0)].drop_last() =~= Seq::<(usize, JsonVal)>::empty());
                    assert(rows_dispatched(Seq::<(usize, JsonVal)>::empty(), d1)
                        =~= Seq::<JsonVal>::empty());
                    assert(Seq::<JsonVal>::empty().push(row0) =~= seq![row0]);
                    assert(rows_dispatched(seq![(d1, row0)], d1) =~= seq![row0]);
                    assert(d1 == (old(self).depth() + 1) as usize);
                    assert(seq![row0].take(1) =~= seq![row0]);
                    assert(rows_dispatched(added, (old(self).depth() + 1) as usize) == seq![
                        row0,
                    ]);
                    assert(dynamic_rows_of(*props)->0 =~= seq![row0]);
                    assert(exists|k: int|
                        0 <= k <= dynamic_rows_of(*props)->0.len() && rows_dispatched(
                            self.expanded@.skip(old(self).expanded@.len() as int),
                            (old(self).depth() + 1) as usize,
                        ) == #[trigger] dynamic_rows_of(*props)->0.take(k)) by {
                        assert(rows_dispatched(self.expanded@.skip(old(self).expanded@.len() as int), (old(self).depth() + 1) as usize) == dynamic_rows_of(*props)->0.take(1));
                    }
                }
                res
            },
            JsonVal::Arr(items) => {
                let n = items.len();
                let mut i: usize = 0;
                let ghost d1: usize = (self.recursion_depth + 1) as usize;
                let ghost mut added: Seq<(usize, JsonVal)> = Seq::empty();
                while i < n
                    invariant
                        n == items@.len(),
                        i <= n,
                        self.wf(),
                        self.depth() == old(self).depth(),
                        self.depth() <= MAX_RECURSION_DEPTH,
                        self.statement() == old(self).statement(),
                        old(self).written().is_prefix_of(self.written()),
                        old(self).events().is_prefix_of(self.events()),
                        i == 0 ==> self.events() == old(self).events(),
                        (match json_get(*data, "properties"@) {
                            Some(p) => dynamic_rows_of(p) == Some(items@),
                            None => false,
                        }),
                        d1 == (old(self).depth() + 1) as usize,
                        self.expansions() == old(self).expansions() + added,
                        rows_dispatched(added, d1) == items@.take(i as int),
                        forall|k: int| 0 <= k < added.len() ==> (#[trigger] added[k]).0 >= d1,
                    decreases n - i,
                {
                    let ghost w_before = self.written();
                    let ghost e_before = self.events();
                    let ghost prev_added = added;
                    self.expanded = Ghost(self.expanded@.push((d1, items@[i as int])));
                    let ghost pre_call = self.expanded@;
                    self.recursion_depth = self.recursion_depth + 1;
                    let res = self.handle_row(store, &items[i]);
                    self.recursion_depth = self.recursion_depth - 1;
                    proof {
                        lemma_prefix_trans(old(self).written(), w_before, self.written());
                        lemma_prefix_trans(old(self).events(), e_before, self.events());
                        let newly = self.expanded@.skip(pre_call.len() as int);
                        assert(self.expanded@ =~= pre_call + newly);
                        assert forall|k: int| 0 <= k < newly.len() implies (#[trigger] newly[k]).0
                            != d1 by {
                            assert(newly[k] == self.expanded@[pre_call.len() + k]);
                        }
                        added = prev_added.push((d1, items@[i as int])) + newly;
                        assert(self.expanded@ =~= old(self).expanded@ + added);
                        lemma_dispatched_append_other(
                            prev_added.push((d1, items@[i as int])),
                            newly,
                            d1,
                        );
                        lemma_dispatched_push(prev_added, d1, items@[i as int]);
                        assert(items@.take(i + 1).drop_last() =~= items@.take(i as int));
                        assert(items@.take(i + 1).last() == items@[i as int]);
                        assert(rows_dispatched(added, d1) =~= items@.take(i + 1));
                        assert forall|k: int| 0 <= k < added.len() implies (#[trigger] added[k]).0
                            >= d1 by {
                            if k < prev_added.len() {
                                assert(added[k] == prev_added[k]);
                            } else if k == prev_added.len() {
                                assert(added[k] == (d1, items@[i as int]));
                            } else {
                                assert(added[k] == newly[k - prev_added.len() - 1]);
                            }
                        }
                    }
                    match res {
                        Ok(_) => {},
                        Err(e) => {
                            proof {
                                assert(self.expanded@.skip(old(self).expanded@.len() as int)
                                    =~= added);
                                assert(rows_dispatched(added, (old(self).depth() + 1) as usize)
                                    == items@.take(i + 1));
                                assert((match json_get(*data, "properties"@) {
                                    Some(p) => (match dynamic_rows_of(p) {
                                        Some(rows) => 0 <= i + 1 <= rows.len()
                                            && rows_dispatched(
                                            self.expanded@.skip(
                                                old(self).expanded@.len() as int,
                                            ),
                                            (old(self).depth() + 1) as usize,
                                        ) == rows.take(i + 1),
                                        None => true,
                                    }),
                                    None => true,
                                }));
                                assert((match json_get(*data, "properties"@) {
                                    Some(p) => (match dynamic_rows_of(p) {
                                        Some(rows) => exists|k: int|
                                            0 <= k <= rows.len() && rows_dispatched(
                                                self.expanded@.skip(
                                                    old(self).expanded@.len() as int,
                                                ),
                                                (old(self).depth() + 1) as usize,
                                            ) == #[trigger] rows.take(k),
                                        None => true,
                                    }),
                                    None => true,
                                }));
                            }
                            return Err(e);
                        },
                    }
                    i += 1;
                }
                proof {
                    assert(self.expanded@.skip(old(self).expanded@.len() as int) =~= added);
                    assert(items@.take(n as int) =~= items@);
                    assert(rows_dispatched(added, (old(self).depth() + 1) as usize)
                        == items@.take(n as int));
                }
                Ok(())
            },
            JsonVal::Str(s) => {
                let parsed = match parse_json(s) {
                    Ok(v) => v,
                    Err(e) => {
                        return Err(
                            ErrorChain::new(e).with_context("parsing json properties".to_owned()),
                        );
                    },
                };
                match parsed {
                    JsonVal::Obj(entries) => {
                        let row = JsonVal::Obj(entries);
                        proof {
                            assert(dynamic_rows_of(*props) == Some(seq![row]));
                            assert(seq![row].len() == 1);
                        }
                        let ghost d1: usize = (self.recursion_depth + 1) as usize;
                        self.expanded = Ghost(self.expanded@.push((d1, row)));
                        let ghost pre_call = self.expanded@;
                        self.recursion_depth = self.recursion_depth + 1;
                        let res = self.handle_row(store, &row);
                        self.recursion_depth = self.recursion_depth - 1;
                        proof {
                            let newly = self.expanded@.skip(pre_call.len() as int);
                            assert(self.expanded@ =~= pre_call + newly);
                            assert forall|k: int| 0 <= k < newly.len() implies (
                            #[trigger] newly[k]).0 != d1 by {
                                assert(newly[k] == self.expanded@[pre_call.len() + k]);
                            }
                            let added = seq![(d1, row)] + newly;
                            assert(self.expanded@ =~= old(self).expanded@ + added);
                            assert(self.expanded@.skip(old(self).expanded@.len() as int)
                                =~= added);
                            lemma_dispatched_append_other(seq![(d1, row)], newly, d1);
                            assert(seq![(d1, row)].drop_last() =~= Seq::<(
                                usize,
                                JsonVal,
                            )>::empty());
                            assert(rows_dispatched(Seq::<(usize, JsonVal)>::empty(), d1)
                                =~= Seq::<JsonVal>::empty());
                            assert(Seq::<JsonVal>::empty().push(row) =~= seq![row]);
                            assert(rows_dispatched(seq![(d1, row)], d1) =~= seq![row]);
                            assert(d1 == (old(self).depth() + 1) as usize);
                            assert(seq![row].take(1) =~= seq![row]);
                            assert(rows_dispatched(added, (old(self).depth() + 1) as usize)
                                == seq![row]);
                            assert(dynamic_rows_of(*props)->0 =~= seq![row]);
                            assert(exists|k: int|
                                0 <= k <= dynamic_rows_of(*props)->0.len() && rows_dispatched(
                                    self.expanded@.skip(old(self).expanded@.len() as int),
                                    (old(self).depth() + 1) as usize,
                                ) == #[trigger] dynamic_rows_of(*props)->0.take(k)) by {
                                assert(rows_dispatched(self.expanded@.skip(old(self).expanded@.len() as int), (old(self).depth() + 1) as usize) == dynamic_rows_of(*props)->0.take(1));
                            }
                        }
                        res
                    },
                    JsonVal::Arr(rows) => {
                        let n = rows.len();
                        let mut i: usize = 0;
                        let ghost d1: usize = (self.recursion_depth + 1) as usize;
                        let ghost mut added: Seq<(usize, JsonVal)> = Seq::empty();
                        while i < n
                            invariant
                                n == rows@.len(),
                                i <= n,
                                self.wf(),
                                self.depth() == old(self).depth(),
                                self.depth() <= MAX_RECURSION_DEPTH,
                                self.statement() == old(self).statement(),
                                old(self).written().is_prefix_of(self.written()),
                                old(self).events().is_prefix_of(self.events()),
                                i == 0 ==> self.events() == old(self).events(),
                                (match json_get(*data, "properties"@) {
                                    Some(p) => dynamic_rows_of(p) == Some(rows@),
                                    None => false,
                                }),
                                d1 == (old(self).depth() + 1) as usize,
                                self.expansions() == old(self).expansions() + added,
                                rows_dispatched(added, d1) == rows@.take(i as int),
                                forall|k: int|
                                    0 <= k < added.len() ==> (#[trigger] added[k]).0 >= d1,
                            decreases n - i,
                        {
                            let ghost w_before = self.written();
                            let ghost e_before = self.events();
                            let ghost prev_added = added;
                            self.expanded = Ghost(self.expanded@.push((d1, rows@[i as int])));
                            let ghost pre_call = self.expanded@;
                            self.recursion_depth = self.recursion_depth + 1;
                            let res = self.handle_row(store, &rows[i]);
                            self.recursion_depth = self.recursion_depth - 1;
                            proof {
                                lemma_prefix_trans(old(self).written(), w_before, self.written());
                                lemma_prefix_trans(old(self).events(), e_before, self.events());
                                let newly = self.expanded@.skip(pre_call.len() as int);
                                assert(self.expanded@ =~= pre_call + newly);
                                assert forall|k: int| 0 <= k < newly.len() implies (
                                #[trigger] newly[k]).0 != d1 by {
                                    assert(newly[k] == self.expanded@[pre_call.len() + k]);
                                }
                                added = prev_added.push((d1, rows@[i as int])) + newly;
                                assert(self.expanded@ =~= old(self).expanded@ + added);
                                lemma_dispatched_append_other(
                                    prev_added.push((d1, rows@[i as int])),
                                    newly,
                                    d1,
                                );
                                lemma_dispatched_push(prev_added, d1, rows@[i as int]);
                                assert(rows@.take(i + 1).drop_last() =~= rows@.take(i as int));
                                assert(rows@.take(i + 1).last() == rows@[i as int]);
                                assert(rows_dispatched(added, d1) =~= rows@.take(i + 1));
                                assert forall|k: int| 0 <= k < added.len() implies (
                                #[trigger] added[k]).0 >= d1 by {
                                    if k < prev_added.len() {
                                        assert(added[k] == prev_added[k]);
                                    } else if k == prev_added.len() {
                                        assert(added[k] == (d1, rows@[i as int]));
                                    } else {
                                        assert(added[k] == newly[k - prev_added.len() - 1]);
                                    }
                                }
                            }
                            match res {
                                Ok(_) => {},
                                Err(e) => {
                                    proof {
                                        assert(self.expanded@.skip(
                                            old(self).expanded@.len() as int,
                                        ) =~= added);
                                        assert(rows_dispatched(
                                            added,
                                            (old(self).depth() + 1) as usize,
                                        ) == rows@.take(i + 1));
                                        assert((match json_get(*data, "properties"@) {
                                            Some(p) => (match dynamic_rows_of(p) {
                                                Some(rs) => 0 <= i + 1 <= rs.len()
                                                    && rows_dispatched(
                                                    self.expanded@.skip(
                                                        old(self).expanded@.len() as int,
                                                    ),
                                                    (old(self).depth() + 1) as usize,
                                                ) == rs.take(i + 1),
                                                None => true,
                                            }),
                                            None => true,
                                        }));
                                        assert((match json_get(*data, "properties"@) {
                                            Some(p) => (match dynamic_rows_of(p) {
                                                Some(rs) => exists|k: int|
                                                    0 <= k <= rs.len() && rows_dispatched(
                                                        self.expanded@.skip(
                                                            old(self).expanded@.len() as int,
                                                        ),
                                                        (old(self).depth() + 1) as usize,
                                                    ) == #[trigger] rs.take(k),
                                                None => true,
                                            }),
                                            None => true,
                                        }));
                                    }
                                    return Err(e);
                                },
                            }
                            i += 1;
                        }
                        proof {
                            assert(self.expanded@.skip(old(self).expanded@.len() as int)
                                =~= added);
                            assert(rows@.take(n as int) =~= rows@);
                            assert(rows_dispatched(added, (old(self).depth() + 1) as usize)
                                == rows@.take(n as int));
                        }
                        Ok(())
                    },
                    _ => Err(
                        ErrorChain::new(
                            "Expected properties string to parse as array or object".to_owned(),
                        ),
                    ),
                }
            },
            _ => Err(ErrorChain::new("Expected properties of type array or object".to_owned())),
        }
    }

    /// Steps the statement counter; the caller signals it at every SQL
    /// statement boundary so that error payloads attribute to the correct
    /// statement.
    pub fn finish_query(&mut self) -> (r: Result<(), ErrorChain>)
        requires
            old(self).wf(),
            old(self).statement() < usize::MAX,
        ensures
            r is Ok,
            final(self).wf(),
            final(self).statement() == old(self).statement() + 1,
            final(self).depth() == old(self).depth(),
            final(self).events() == old(self).events(),
            final(self).written() == old(self).written(),
            final(self).inner_open() == old(self).inner_open(),
            final(self).inner_idx() == old(self).inner_idx(),
            final(self).inner_template() == old(self).inner_template(),
            final(self).inner_data() == old(self).inner_data(),
            final(self).shell_open() == old(self).shell_open(),
            final(self).shell_idx() == old(self).shell_idx(),
            final(self).shell_template() == old(self).shell_template(),
            final(self).shell_data() == old(self).shell_data(),
            final(self).expansions() == old(self).expansions(),
    {
        self.current_statement = self.current_statement + 1;
        Ok(())
    }

    /// Renders a database error inline: closes the current component, opens
    /// the `error` component, emits one item carrying the statement number,
    /// the description and the causes, closes it again, and restores the
    /// previous (now closed) renderer, so that the next action on the page is
    /// opening a component or closing the page.
    pub fn handle_error(&mut self, store: &TemplateStore, error: &ErrorChain) -> (r: Result<
        (),
        ErrorChain,
    >)
        requires
            old(self).wf(),
            error.wf(),
        ensures
            final(self).wf(),
            final(self).depth() == old(self).depth(),
            final(self).statement() == old(self).statement(),
            r is Ok ==> !final(self).inner_open()
                && final(self).inner_template() == old(self).inner_template(),
            r is Ok ==> exists|p: JsonVal|
                #[trigger] is_error_payload(p, old(self).statement(), error.messages())
                    && final(self).events() == error_events(
                    old(self).events(),
                    old(self).inner_open(),
                    p,
                    old(self).shell_open(),
                    old(self).shell_idx(),
                ),
            final(self).expansions() == old(self).expansions(),
            old(self).written().is_prefix_of(final(self).written()),
            old(self).events().is_prefix_of(final(self).events()),
            r matches Err(e) ==> e.wf(),
    {
        match self.close_component() {
            Ok(_) => {},
            Err(e) => {
                return Err(e);
            },
        }
        let error_name: String = "error".to_owned();
        let payload = self.error_payload(error);
        let saved_component = match self.open_component_with_data(
            store,
            &error_name,
            &JsonVal::Null,
        ) {
            Ok(old_renderer) => old_renderer,
            Err(e) => {
                return Err(e);
            },
        };
        match self.render_current_template_with_data(store, &payload) {
            Ok(_) => {},
            Err(e) => {
                return Err(e);
            },
        }
        match self.close_component() {
            Ok(_) => {},
            Err(e) => {
                return Err(e);
            },
        }
        self.current_component = saved_component;
        proof {
            assert(is_error_payload(payload, old(self).statement(), error.messages()));
            assert(self.trace@ =~= error_events(
                old(self).trace@,
                old(self).inner_open(),
                payload,
                old(self).shell_open(),
                old(self).shell_idx(),
            ));
        }
        Ok(())
    }

    /// The JSON payload the `error` component renders: the 1-based statement
    /// number, the outermost description, and the chain of causes.
    fn error_payload(&self, error: &ErrorChain) -> (payload: JsonVal)
        requires
            error.wf(),
        ensures
            is_error_payload(payload, self.statement(), error.messages()),
    {
        let mut backtrace: Vec<JsonVal> = Vec::new();
        let causes = error.causes();
        let n = causes.len();
        let mut i: usize = 0;
        while i < n
            invariant
                n == causes@.len(),
                i <= n,
                causes.deep_view() == error.messages().drop_first(),
                backtrace@.len() == i,
                forall|m: int|
                    0 <= m < i ==> (#[trigger] backtrace@[m] matches JsonVal::Str(s) && s@
                        == causes@[m]@),
            decreases n - i,
        {
            backtrace.push(JsonVal::Str(causes[i].clone()));
            i += 1;
        }
        let mut entries: Vec<(String, JsonVal)> = Vec::new();
        entries.push(
            ("query_number".to_owned(), JsonVal::U64(self.current_statement as u64)),
        );
        entries.push(("description".to_owned(), JsonVal::Str(error.message().clone())));
        entries.push(("backtrace".to_owned(), JsonVal::Arr(backtrace)));
        let payload = JsonVal::Obj(entries);
        proof {
            reveal_strlit("query_number");
            reveal_strlit("description");
            reveal_strlit("backtrace");
            assert("query_number"@.len() == 12);
            assert("description"@.len() == 11);
            assert("backtrace"@.len() == 9);
            let es = payload->Obj_0@;
            assert(spec_obj_get_from(es, "query_number"@, 0) == Some(es[0].1));
            assert(spec_obj_get_from(es, "description"@, 1) == Some(es[1].1));
            assert(spec_obj_get_from(es, "description"@, 0) == Some(es[1].1));
            assert(spec_obj_get_from(es, "backtrace"@, 2) == Some(es[2].1));
            assert(spec_obj_get_from(es, "backtrace"@, 1) == Some(es[2].1));
            assert(spec_obj_get_from(es, "backtrace"@, 0) == Some(es[2].1));
            assert forall|m: int| 0 <= m < backtrace@.len() implies (#[trigger] backtrace@[m]
                matches JsonVal::Str(s) && s@ == error.messages()[m + 1]) by {
                assert(causes.deep_view()[m] == causes@[m]@);
            }
        }
        payload
    }

    /// Handles a fallible outcome: an error is rendered inline, a success
    /// does nothing.
    pub fn handle_result<R>(&mut self, store: &TemplateStore, result: &Result<R, ErrorChain>) -> (r:
        Result<(), ErrorChain>)
        requires
            old(self).wf(),
            result matches Err(e) ==> e.wf(),
        ensures
            final(self).wf(),
            final(self).depth() == old(self).depth(),
            final(self).statement() == old(self).statement(),
            result is Ok ==> r is Ok && *final(self) == *old(self),
            result matches Err(_) && r is Ok ==> !final(self).inner_open(),
            (match result {
                Err(e) => r is Ok ==> exists|p: JsonVal|
                    #[trigger] is_error_payload(p, old(self).statement(), e.messages())
                        && final(self).events() == error_events(
                        old(self).events(),
                        old(self).inner_open(),
                        p,
                        old(self).shell_open(),
                        old(self).shell_idx(),
                    ),
                Ok(_) => true,
            }),
            final(self).expansions() == old(self).expansions(),
            old(self).written().is_prefix_of(final(self).written()),
            old(self).events().is_prefix_of(final(self).events()),
            r matches Err(e) ==> e.wf(),
    {
        match result {
            Err(error) => self.handle_error(store, error),
            Ok(_) => Ok(()),
        }
    }

    /// Handles a fallible outcome, swallowing a failure of the inline error
    /// rendering itself: nothing more can be done with it inside the page.
    pub fn handle_result_and_log<R>(
        &mut self,
        store: &TemplateStore,
        result: &Result<R, ErrorChain>,
    )
        requires
            old(self).wf(),
            result matches Err(e) ==> e.wf(),
        ensures
            final(self).wf(),
            final(self).depth() == old(self).depth(),
            final(self).statement() == old(self).statement(),
            result is Ok ==> *final(self) == *old(self),
            final(self).expansions() == old(self).expansions(),
            old(self).written().is_prefix_of(final(self).written()),
            old(self).events().is_prefix_of(final(self).events()),
    {
        let _ = self.handle_result(store, result);
    }

    /// Renders one item in the current component with the row payload, then
    /// one interstitial null item in the shell.
    fn render_current_template_with_data(&mut self, store: &TemplateStore, data: &JsonVal) -> (r:
        Result<(), ErrorChain>)
        requires
            old(self).wf(),
        ensures
            final(self).wf(),
            final(self).depth() == old(self).depth(),
            final(self).statement() == old(self).statement(),
            old(self).inner_open() && r is Ok
                ==> final(self).inner_open() && final(self).inner_idx() == old(self).inner_idx()
                + 1,
            !old(self).inner_open() && !old(self).shell_open() ==> r is Ok
                && final(self).written() == old(self).written()
                && final(self).events() == old(self).events() && !final(self).inner_open()
                && !final(self).shell_open(),
            final(self).expansions() == old(self).expansions(),
            final(self).inner_template() == old(self).inner_template(),
            final(self).shell_template() == old(self).shell_template(),
            r is Ok ==> final(self).events() == item_events(
                old(self).events(),
                old(self).inner_open(),
                old(self).inner_idx(),
                *data,
                old(self).shell_open(),
                old(self).shell_idx(),
            ),
            old(self).written().is_prefix_of(final(self).written()),
            old(self).events().is_prefix_of(final(self).events()),
            r matches Err(e) ==> e.wf(),
        decreases 0int,
    {
        let ghost inner_was_open = self.current_component.is_open();
        let ghost inner_idx = self.current_component.idx();
        let ghost row = *data;
        let r1 = self.current_component.render_item(&mut self.writer, data);
        match r1 {
            Ok(_) => {
                proof {
                    if inner_was_open {
                        lemma_page_run_push(self.trace@, PEv::Inner(REv::Item(inner_idx, row)));
                    }
                }
                self.trace = Ghost(
                    if inner_was_open {
                        self.trace@.push(PEv::Inner(REv::Item(inner_idx, row)))
                    } else {
                        self.trace@
                    },
                );
            },
            Err(e) => {
                proof {
                    lemma_page_run_push(self.trace@, PEv::Inner(REv::Abort));
                }
                self.trace = Ghost(self.trace@.push(PEv::Inner(REv::Abort)));
                return Err(e);
            },
        }
        let ghost shell_was_open = self.shell_renderer.is_open();
        let ghost shell_idx = self.shell_renderer.idx();
        let r2 = self.shell_renderer.render_item(&mut self.writer, &JsonVal::Null);
        match r2 {
            Ok(_) => {
                proof {
                    if shell_was_open {
                        lemma_page_run_push(
                            self.trace@,
                            PEv::Shell(REv::Item(shell_idx, JsonVal::Null)),
                        );
                    }
                }
                self.trace = Ghost(
                    if shell_was_open {
                        self.trace@.push(PEv::Shell(REv::Item(shell_idx, JsonVal::Null)))
                    } else {
                        self.trace@
                    },
                );
                proof {
                    assert(self.trace@ =~= item_events(
                        old(self).trace@,
                        inner_was_open,
                        inner_idx,
                        row,
                        shell_was_open,
                        shell_idx,
                    ));
                }
                Ok(())
            },
            Err(e) => {
                proof {
                    lemma_page_run_push(self.trace@, PEv::Shell(REv::Abort));
                }
                self.trace = Ghost(self.trace@.push(PEv::Shell(REv::Abort)));
                Err(e)
            },
        }
    }

    /// Closes the current component, resolves `component`, installs a fresh
    /// renderer for it and opens it with `data` as its properties; hands the
    /// replaced renderer (then closed) back.
    fn open_component_with_data(
        &mut self,
        store: &TemplateStore,
        component: &String,
        data: &JsonVal,
    ) -> (r: Result<SplitTemplateRenderer, ErrorChain>)
        requires
            old(self).wf(),
        ensures
            final(self).wf(),
            final(self).depth() == old(self).depth(),
            final(self).statement() == old(self).statement(),
            r matches Ok(replaced) ==> !replaced.is_open() && final(self).inner_open()
                && final(self).inner_idx() == 0
                && replaced.spec_template() == old(self).inner_template()
                && Some(final(self).inner_template()) == store.spec_resolve(component@)
                && final(self).events() == old(self).events() + (if old(self).inner_open() {
                seq![PEv::Inner(REv::End)]
            } else {
                Seq::<PEv>::empty()
            }) + seq![PEv::Inner(REv::Start)],
            final(self).expansions() == old(self).expansions(),
            old(self).written().is_prefix_of(final(self).written()),
            old(self).events().is_prefix_of(final(self).events()),
            r matches Err(e) ==> e.wf(),
        decreases 0int,
    {
        match self.close_component() {
            Ok(_) => {},
            Err(e) => {
                return Err(e);
            },
        }
        let template = match store.resolve(component.as_str()) {
            Some(t) => t.clone(),
            None => {
                let mut msg: String = "The component was not found: ".to_owned();
                msg.append(component.as_str());
                return Err(ErrorChain::new(msg));
            },
        };
        let mut replaced = SplitTemplateRenderer::new(template);
        core::mem::swap(&mut self.current_component, &mut replaced);
        let r = self.current_component.render_start(&mut self.writer, data);
        match r {
            Ok(_) => {
                proof {
                    lemma_page_run_push(self.trace@, PEv::Inner(REv::Start));
                }
                self.trace = Ghost(self.trace@.push(PEv::Inner(REv::Start)));
                Ok(replaced)
            },
            Err(e) => Err(e),
        }
    }

    /// Ends the current component's instance; a closed instance is left as
    /// it is.
    fn close_component(&mut self) -> (r: Result<(), ErrorChain>)
        requires
            old(self).wf(),
        ensures
            final(self).wf(),
            final(self).depth() == old(self).depth(),
            final(self).statement() == old(self).statement(),
            !final(self).inner_open(),
            final(self).inner_template() == old(self).inner_template(),
            r is Ok ==> final(self).events() == old(self).events() + (if old(self).inner_open() {
                seq![PEv::Inner(REv::End)]
            } else {
                Seq::<PEv>::empty()
            }),
            final(self).expansions() == old(self).expansions(),
            old(self).written().is_prefix_of(final(self).written()),
            old(self).events().is_prefix_of(final(self).events()),
            r matches Err(e) ==> e.wf(),
        decreases 0int,
    {
        let ghost was_open = self.current_component.is_open();
        let r = self.current_component.render_end(&mut self.writer);
        match r {
            Ok(_) => {
                proof {
                    if was_open {
                        lemma_page_run_push(self.trace@, PEv::Inner(REv::End));
                    }
                }
                self.trace = Ghost(
                    if was_open {
                        self.trace@.push(PEv::Inner(REv::End))
                    } else {
                        self.trace@
                    },
                );
                Ok(())
            },
            Err(e) => {
                proof {
                    lemma_page_run_push(self.trace@, PEv::Inner(REv::Abort));
                }
                self.trace = Ghost(self.trace@.push(PEv::Inner(REv::Abort)));
                Err(e)
            },
        }
    }

    /// Closes the page: ends the current component, then the shell.  A
    /// failure of either is rendered inline as far as the page still can,
    /// and does not prevent the other from being attempted.  Returns the
    /// rendered body; afterwards both renderers are closed and the trace is
    /// still lawful, ending in the shell's close when it succeeded.
    pub fn close(&mut self, store: &TemplateStore) -> (out: String)
        requires
            old(self).wf(),
        ensures
            valid_trace(final(self).events()),
            count_shell_starts(final(self).events()) == 1,
            old(self).events().is_prefix_of(final(self).events()),
            final(self).expansions() == old(self).expansions(),
            !final(self).inner_open(),
            !final(self).shell_open(),
            old(self).written().is_prefix_of(out@),
    {
        let r1 = self.close_component();
        match r1 {
            Ok(_) => {},
            Err(e) => {
                let wrapped = e.with_context(
                    "Unable to render the component closing".to_owned(),
                );
                let res: Result<(), ErrorChain> = Err(wrapped);
                self.handle_result_and_log(store, &res);
                let _ = self.close_component();
            },
        }
        let ghost shell_was_open = self.shell_renderer.is_open();
        let r2 = self.shell_renderer.render_end(&mut self.writer);
        match r2 {
            Ok(_) => {
                proof {
                    if shell_was_open {
                        lemma_page_run_push(self.trace@, PEv::Shell(REv::End));
                    }
                }
                self.trace = Ghost(
                    if shell_was_open {
                        self.trace@.push(PEv::Shell(REv::End))
                    } else {
                        self.trace@
                    },
                );
            },
            Err(_) => {
                proof {
                    lemma_page_run_push(self.trace@, PEv::Shell(REv::Abort));
                }
                self.trace = Ghost(self.trace@.push(PEv::Shell(REv::Abort)));
            },
        }
        proof {
            lemma_shell_opened_once(self.trace@);
        }
        let mut out: String = String::new();
        core::mem::swap(&mut out, &mut self.writer);
        out
    }
}

/// A live body phase always stands on a lawful trace, so the bracketing,
/// ordering and counting laws below apply to it.
pub proof fn lemma_context_trace_valid(c: RenderContext)
    requires
        c.wf(),
    ensures
        valid_trace(c.events()),
{
}

/// How many `Start` events a renderer history holds.
pub open spec fn count_starts(h: Seq<REv>) -> nat
    decreases h.len(),
{
    if h.len() == 0 {
        0nat
    } else {
        count_starts(h.drop_last()) + (if h.last() is Start {
            1nat
        } else {
            0nat
        })
    }
}

/// How many closing events (`End` or `Abort`) a renderer history holds.
pub open spec fn count_closes(h: Seq<REv>) -> nat
    decreases h.len(),
{
    if h.len() == 0 {
        0nat
    } else {
        count_closes(h.drop_last()) + (if h.last() is End || h.last() is Abort {
            1nat
        } else {
            0nat
        })
    }
}

/// The shell's own history within a page trace.
pub open spec fn proj_shell(t: Seq<PEv>) -> Seq<REv>
    decreases t.len(),
{
    if t.len() == 0 {
        Seq::empty()
    } else {
        match t.last() {
            PEv::Shell(e) => proj_shell(t.drop_last()).push(e),
            PEv::Inner(_) => proj_shell(t.drop_last()),
        }
    }
}

/// The inner components' joint history within a page trace: the successive
/// instances' runs, concatenated.
pub open spec fn proj_inner(t: Seq<PEv>) -> Seq<REv>
    decreases t.len(),
{
    if t.len() == 0 {
        Seq::empty()
    } else {
        match t.last() {
            PEv::Inner(e) => proj_inner(t.drop_last()).push(e),
            PEv::Shell(_) => proj_inner(t.drop_last()),
        }
    }
}

/// A lawful page trace projects to lawful renderer runs: the shell events on
/// their own, and the inner events on their own, follow the single-renderer
/// protocol and land in the page state's renderer states; moreover a shell
/// that never started is not open, and an open inner component implies the
/// shell has started.
pub proof fn lemma_projections_run(t: Seq<PEv>)
    requires
        page_run(t) is Some,
    ensures
        run_state(proj_shell(t)) == Some(page_run(t)->0.shell),
        run_state(proj_inner(t)) == Some(page_run(t)->0.inner),
        !page_run(t)->0.shell_started ==> !page_run(t)->0.shell.0,
        page_run(t)->0.inner.0 ==> page_run(t)->0.shell_started,
    decreases t.len(),
{
    if t.len() > 0 {
        assert(page_run(t) == page_step(page_run(t.drop_last()), t.last()));
        lemma_projections_run(t.drop_last());
        match t.last() {
            PEv::Shell(e) => {
                assert(proj_shell(t) =~= proj_shell(t.drop_last()).push(e));
                assert(proj_inner(t) =~= proj_inner(t.drop_last()));
                assert(proj_shell(t).drop_last() =~= proj_shell(t.drop_last()));
            },
            PEv::Inner(e) => {
                assert(proj_inner(t) =~= proj_inner(t.drop_last()).push(e));
                assert(proj_shell(t) =~= proj_shell(t.drop_last()));
                assert(proj_inner(t).drop_last() =~= proj_inner(t.drop_last()));
            },
        }
    }
}

/// In a lawful renderer history, the instances bracket: there are exactly as
/// many starts as closings (an abort closes too), plus one for an instance
/// still open.  With the previous lemma this holds of the shell's and of the
/// inner components' histories of every lawful page trace.
pub proof fn lemma_start_end_balance(h: Seq<REv>)
    requires
        run_state(h) is Some,
    ensures
        count_starts(h) == count_closes(h) + (if (run_state(h)->0).0 {
            1nat
        } else {
            0nat
        }),
    decreases h.len(),
{
    if h.len() > 0 {
        assert(run_state(h) == run_step(run_state(h.drop_last()), h.last()));
        lemma_start_end_balance(h.drop_last());
    }
}

/// Every prefix of a lawful renderer history is lawful.
pub proof fn lemma_run_prefix(h: Seq<REv>, m: int)
    requires
        run_state(h) is Some,
        0 <= m <= h.len(),
    ensures
        run_state(h.take(m)) is Some,
    decreases h.len() - m,
{
    if m < h.len() {
        lemma_run_prefix(h, m + 1);
        assert(h.take(m + 1).drop_last() =~= h.take(m));
        assert(h.take(m + 1).last() == h[m]);
        assert(run_state(h.take(m + 1)) == run_step(run_state(h.take(m)), h[m]));
    } else {
        assert(h.take(m) =~= h);
    }
}

/// Between two item renders with no start in between, the instance's item
/// counter has only grown.
proof fn lemma_idx_grows(h: Seq<REv>, p: int, k: int)
    requires
        run_state(h) is Some,
        0 <= p < k <= h.len(),
        forall|j: int| p < j < k ==> !(h[j] is Start),
        h[p] is Item,
    ensures
        run_state(h.take(k)) matches Some(st) && st.1 >= h[p]->Item_0 + 1,
    decreases k - p,
{
    lemma_run_prefix(h, k);
    assert(h.take(k).drop_last() =~= h.take(k - 1));
    assert(h.take(k).last() == h[k - 1]);
    assert(run_state(h.take(k)) == run_step(run_state(h.take(k - 1)), h[k - 1]));
    if k == p + 1 {
        lemma_run_prefix(h, p);
    } else {
        lemma_idx_grows(h, p, k - 1);
    }
}

/// The item indexes a renderer instance hands out are strictly increasing:
/// of two item renders with no new start between them, the later carries the
/// larger index.  Together with a start resetting the counter to zero, the
/// indexes of one instance read 0, 1, 2, and so on.
pub proof fn lemma_item_indexes_increase(h: Seq<REv>, p: int, q: int)
    requires
        run_state(h) is Some,
        0 <= p < q < h.len(),
        h[p] is Item,
        h[q] is Item,
        forall|j: int| p < j < q ==> !(h[j] is Start),
    ensures
        h[p]->Item_0 < h[q]->Item_0,
{
    lemma_idx_grows(h, p, q);
    lemma_run_prefix(h, q + 1);
    assert(h.take(q + 1).drop_last() =~= h.take(q));
    assert(h.take(q + 1).last() == h[q]);
    assert(run_state(h.take(q + 1)) == run_step(run_state(h.take(q)), h[q]));
}

/// How many `Shell(Start)` events a page trace holds.
pub open spec fn count_shell_starts(t: Seq<PEv>) -> nat
    decreases t.len(),
{
    if t.len() == 0 {
        0nat
    } else {
        count_shell_starts(t.drop_last()) + (if t.last() == PEv::Shell(REv::Start) {
            1nat
        } else {
            0nat
        })
    }
}

/// The shell opens at most once, and exactly once when it has started.
pub proof fn lemma_shell_opened_once(t: Seq<PEv>)
    requires
        page_run(t) is Some,
    ensures
        count_shell_starts(t) == (if page_run(t)->0.shell_started {
            1nat
        } else {
            0nat
        }),
    decreases t.len(),
{
    if t.len() > 0 {
        assert(page_run(t) == page_step(page_run(t.drop_last()), t.last()));
        lemma_shell_opened_once(t.drop_last());
    }
}

/// Every prefix of a lawful page trace is lawful.
pub proof fn lemma_page_prefix(t: Seq<PEv>, m: int)
    requires
        page_run(t) is Some,
        0 <= m <= t.len(),
    ensures
        page_run(t.take(m)) is Some,
    decreases t.len() - m,
{
    if m < t.len() {
        lemma_page_prefix(t, m + 1);
        assert(t.take(m + 1).drop_last() =~= t.take(m));
        assert(t.take(m + 1).last() == t[m]);
        assert(page_run(t.take(m + 1)) == page_step(page_run(t.take(m)), t[m]));
    } else {
        assert(t.take(m) =~= t);
    }
}

/// The shell opens before any inner component event: whatever an inner
/// renderer does, the shell's start stands earlier in the trace.
pub proof fn lemma_inner_after_shell_start(t: Seq<PEv>, k: int)
    requires
        page_run(t) is Some,
        0 <= k < t.len(),
        t[k] is Inner,
    ensures
        exists|j: int| 0 <= j < k && t[j] == PEv::Shell(REv::Start),
    decreases t.len(),
{
    if k == t.len() - 1 {
        assert(page_run(t) == page_step(page_run(t.drop_last()), t.last()));
        lemma_projections_run(t.drop_last());
        assert(page_run(t.drop_last())->0.shell_started);
        lemma_shell_started_witness(t.drop_last());
        let j = choose|j: int|
            0 <= j < t.drop_last().len() && t.drop_last()[j] == PEv::Shell(REv::Start);
        assert(t[j] == PEv::Shell(REv::Start));
    } else {
        lemma_inner_after_shell_start(t.drop_last(), k);
        let j = choose|j: int|
            0 <= j < k && t.drop_last()[j] == PEv::Shell(REv::Start);
        assert(t[j] == PEv::Shell(REv::Start));
    }
}

/// A started shell means its start stands in the trace.
proof fn lemma_shell_started_witness(t: Seq<PEv>)
    requires
        page_run(t) is Some,
        page_run(t)->0.shell_started,
    ensures
        exists|j: int| 0 <= j < t.len() && t[j] == PEv::Shell(REv::Start),
    decreases t.len(),
{
    assert(t.len() > 0);
    assert(page_run(t) == page_step(page_run(t.drop_last()), t.last()));
    if t.last() == PEv::Shell(REv::Start) {
        assert(t[t.len() - 1] == PEv::Shell(REv::Start));
    } else {
        assert(page_run(t.drop_last())->0.shell_started);
        lemma_shell_started_witness(t.drop_last());
        let j = choose|j: int|
            0 <= j < t.drop_last().len() && t.drop_last()[j] == PEv::Shell(REv::Start);
        assert(t[j] == PEv::Shell(REv::Start));
    }
}

/// The shell closes last: its close ends the trace, and at that point no
/// inner component is open, so the shell closes exactly once, after the last
/// inner component has closed.
pub proof fn lemma_shell_end_is_last(t: Seq<PEv>, k: int)
    requires
        page_run(t) is Some,
        0 <= k < t.len(),
        t[k] == PEv::Shell(REv::End),
    ensures
        k == t.len() - 1,
        !page_run(t.take(k))->0.inner.0,
    decreases t.len(),
{
    lemma_page_prefix(t, k + 1);
    lemma_page_prefix(t, k);
    assert(t.take(k + 1).drop_last() =~= t.take(k));
    assert(t.take(k + 1).last() == t[k]);
    assert(page_run(t.take(k + 1)) == page_step(page_run(t.take(k)), t[k]));
    assert(page_run(t.take(k + 1))->0.done);
    if k < t.len() - 1 {
        lemma_not_done_before_end(t, k + 1);
    }
}

/// While events remain in the trace, the page is not yet done.
proof fn lemma_not_done_before_end(t: Seq<PEv>, m: int)
    requires
        page_run(t) is Some,
        0 <= m < t.len(),
    ensures
        !(page_run(t.take(m))->0.done),
{
    lemma_page_prefix(t, m);
    lemma_page_prefix(t, m + 1);
    assert(t.take(m + 1).drop_last() =~= t.take(m));
    assert(t.take(m + 1).last() == t[m]);
    assert(page_run(t.take(m + 1)) == page_step(page_run(t.take(m)), t[m]));
}

} // verus!
