//! Compiled split templates and the calls into the `handlebars` engine.
//!
//! A split template is one page template partitioned into three compiled
//! segments: a header emitted once, an item segment emitted once per row, and
//! a footer emitted once.  The engine renders one segment at a time; the
//! block-local state a segment leaves behind is carried to the next render in
//! a [`BlockLocals`] bag, so that constructs opened in one segment can close
//! in a later one.
//!
//! Compiled segments and the engine registry are shared immutably for the
//! life of the process; the store gives them out by reference.

use handlebars::{BlockContext, Renderable, StringOutput};
use vstd::prelude::*;
use vstd::string::*;
use crate::error::ErrorChain;
use crate::json::{to_json_value, JsonVal};

verus! {

#[verifier::external_type_specification]
#[verifier::external_body]
pub struct ExHandlebars<'reg>(handlebars::Handlebars<'reg>);

#[verifier::external_type_specification]
#[verifier::external_body]
pub struct ExTemplate(handlebars::Template);

#[verifier::external_type_specification]
#[verifier::external_body]
pub struct ExContext(handlebars::Context);

#[verifier::external_type_specification]
#[verifier::external_body]
pub struct ExBlockContext<'reg>(handlebars::BlockContext<'reg>);

/// The block-local state one segment render leaves for the next: the root
/// block of the render context (its local variables in particular) and the
/// context override a helper may have installed.
pub struct BlockLocals {
    root_block: handlebars::BlockContext<'static>,
    ctx_override: Option<handlebars::Context>,
}

/// Relies on std's `Box::leak`: gives the engine registry process lifetime,
/// so renders can borrow it for as long as the compiled templates live.
#[verifier::external_body]
fn leak_registry(registry: handlebars::Handlebars<'static>) -> &'static handlebars::Handlebars<
    'static,
> {
    Box::leak(Box::new(registry))
}

/// Relies on `handlebars::Template::compile`: parses one template segment,
/// returning the parse error as text.
#[verifier::external_body]
fn compile_template(source: &str) -> (r: Result<handlebars::Template, String>) {
    handlebars::Template::compile(source).map_err(|e| e.to_string())
}

/// Relies on std's `Box::leak`: gives one compiled segment process lifetime;
/// called only once all of a registration's segments have compiled, so a
/// refused registration leaks nothing.
#[verifier::external_body]
fn leak_template(t: handlebars::Template) -> &'static handlebars::Template {
    Box::leak(Box::new(t))
}

/// Relies on `handlebars::Context`: a root evaluation context holding the
/// given row data.
#[verifier::external_body]
pub(crate) fn context_with_data(v: &JsonVal) -> handlebars::Context {
    let mut ctx = handlebars::Context::null();
    *ctx.data_mut() = to_json_value(v);
    ctx
}

/// Relies on `handlebars::Context::null`: the empty evaluation context.
#[verifier::external_body]
pub(crate) fn context_null() -> handlebars::Context {
    handlebars::Context::null()
}

/// Relies on `handlebars::Renderable::render`: renders `tpl` against `ctx`
/// with a fresh block stack, returning the text and the block-local state the
/// render left behind.  A fresh render context always has a root block; if a
/// registered helper net-pops the stack, the carried state starts over empty.
#[verifier::external_body]
pub(crate) fn render_before_segment(
    registry: &'static handlebars::Handlebars<'static>,
    tpl: &'static handlebars::Template,
    ctx: &handlebars::Context,
) -> (r: Result<(String, BlockLocals), String>) {
    let mut rc: handlebars::RenderContext<'static, '_> = handlebars::RenderContext::new(None);
    let mut out = handlebars::StringOutput::new();
    tpl.render(registry, ctx, &mut rc, &mut out).map_err(|e| e.to_string())?;
    let root_block = rc.block_mut().map(std::mem::take).unwrap_or_default();
    let ctx_override = rc.context().map(|c| (*c).clone());
    let text = out.into_string().map_err(|e| e.to_string())?;
    Ok((text, BlockLocals { root_block, ctx_override }))
}

/// Relies on `handlebars::Renderable::render`: renders the item segment with
/// the carried block-local state restored on the root block and one fresh
/// block pushed on top, whose base value is the row and whose `row_index`
/// local variable is the given counter; returns the text and the re-captured
/// block-local state (starting over empty if a registered helper net-popped
/// the stack).
/// Relies on `handlebars::BlockContext`: a fresh block whose base value is
/// the row and whose `row_index` local variable is the given counter.
#[verifier::external_body]
fn item_block(data: &JsonVal, row_index: usize) -> BlockContext<'static> {
    let mut blk = BlockContext::new();
    blk.set_base_value(to_json_value(data));
    blk.set_local_var("row_index", serde_json::Value::from(row_index as u64));
    blk
}

#[verifier::external_body]
pub(crate) fn render_item_segment(
    registry: &'static handlebars::Handlebars<'static>,
    tpl: &'static handlebars::Template,
    ctx: &handlebars::Context,
    locals: BlockLocals,
    data: &JsonVal,
    row_index: usize,
) -> (r: Result<(String, BlockLocals), String>) {
    let mut rc: handlebars::RenderContext<'static, '_> = handlebars::RenderContext::new(None);
    if let Some(c) = locals.ctx_override { rc.set_context(c); }
    if let Some(b) = rc.block_mut() { *b = locals.root_block; }
    rc.push_block(item_block(data, row_index));
    let mut out = StringOutput::new();
    tpl.render(registry, ctx, &mut rc, &mut out).map_err(|e| e.to_string())?;
    rc.pop_block();
    let root_block = rc.block_mut().map(std::mem::take).unwrap_or_default();
    let bag = BlockLocals { root_block, ctx_override: rc.context().map(|c| (*c).clone()) };
    Ok((out.into_string().map_err(|e| e.to_string())?, bag))
}

/// Relies on `handlebars::Renderable::render`: renders the footer segment
/// with the carried block-local state restored on the root block.
#[verifier::external_body]
pub(crate) fn render_after_segment(
    registry: &'static handlebars::Handlebars<'static>,
    tpl: &'static handlebars::Template,
    ctx: &handlebars::Context,
    locals: BlockLocals,
) -> (r: Result<String, String>) {
    let mut rc: handlebars::RenderContext<'static, '_> = handlebars::RenderContext::new(None);
    if let Some(c) = locals.ctx_override {
        rc.set_context(c);
    }
    if let Some(b) = rc.block_mut() {
        *b = locals.root_block;
    }
    let mut out = handlebars::StringOutput::new();
    tpl.render(registry, ctx, &mut rc, &mut out).map_err(|e| e.to_string())?;
    out.into_string().map_err(|e| e.to_string())
}

/// One page template, compiled and partitioned into its three segments.
pub struct SplitTemplate {
    pub(crate) name: String,
    pub(crate) registry: &'static handlebars::Handlebars<'static>,
    pub(crate) before_list: &'static handlebars::Template,
    pub(crate) list_content: &'static handlebars::Template,
    pub(crate) after_list: &'static handlebars::Template,
}

impl SplitTemplate {
    /// The component name the template was registered under.
    pub closed spec fn spec_name(self) -> Seq<char> {
        self.name@
    }

    /// The component name the template was registered under.
    pub fn name(&self) -> (r: &String)
        ensures
            r@ == self.spec_name(),
    {
        &self.name
    }
}

impl Clone for SplitTemplate {
    /// A copy sharing the same compiled segments.
    fn clone(&self) -> (r: Self)
        ensures
            r == *self,
    {
        SplitTemplate {
            name: self.name.clone(),
            registry: self.registry,
            before_list: self.before_list,
            list_content: self.list_content,
            after_list: self.after_list,
        }
    }
}

/// First entry of `entries` at or after position `i` whose name reads `name`.
pub open spec fn spec_tpl_get_from(
    entries: Seq<(String, SplitTemplate)>,
    name: Seq<char>,
    i: int,
) -> Option<SplitTemplate>
    decreases entries.len() - i,
{
    if i < 0 || i >= entries.len() {
        None
    } else if entries[i].0@ == name {
        Some(entries[i].1)
    } else {
        spec_tpl_get_from(entries, name, i + 1)
    }
}

/// Loads and keeps compiled split templates by component name, and owns the
/// engine registry that renders their segments.
pub struct TemplateStore {
    registry: &'static handlebars::Handlebars<'static>,
    templates: Vec<(String, SplitTemplate)>,
}

impl TemplateStore {
    /// The template registered under `name`, if any.
    pub closed spec fn spec_resolve(self, name: Seq<char>) -> Option<SplitTemplate> {
        spec_tpl_get_from(self.templates@, name, 0)
    }

    /// Whether a template is registered under `name`.
    pub open spec fn has_template(self, name: Seq<char>) -> bool {
        self.spec_resolve(name) is Some
    }

    /// An empty store driving its segments through the given engine.  The
    /// engine's helpers decide what non-standard template constructs do; the
    /// store only keeps it.
    pub fn new(registry: handlebars::Handlebars<'static>) -> (r: Self)
        ensures
            forall|name: Seq<char>| r.spec_resolve(name) is None,
    {
        TemplateStore { registry: leak_registry(registry), templates: Vec::new() }
    }

    /// Compiles the three segment sources and registers them under `name`.
    /// A name can be registered once; a second registration is refused, as is
    /// a segment that does not compile.
    pub fn add_template(&mut self, name: String, before: &str, item: &str, after: &str) -> (r:
        Result<(), ErrorChain>)
        ensures
            old(self).has_template(name@) ==> r is Err && *final(self) == *old(self),
            r is Ok ==> (match final(self).spec_resolve(name@) {
                Some(t) => t.spec_name() == name@,
                None => false,
            }),
            r is Ok ==> old(self).spec_resolve(name@) is None,
            forall|other: Seq<char>|
                other != name@ ==> final(self).spec_resolve(other) == old(self).spec_resolve(
                    other,
                ),
            r is Err ==> *final(self) == *old(self),
    {
        if self.find(&name).is_some() {
            return Err(
                ErrorChain::new("a template is already registered under this name".to_owned()),
            );
        }
        let before_compiled = match compile_template(before) {
            Ok(t) => t,
            Err(e) => {
                return Err(ErrorChain::new(e).with_context("compiling the header segment".to_owned()));
            },
        };
        let item_compiled = match compile_template(item) {
            Ok(t) => t,
            Err(e) => {
                return Err(ErrorChain::new(e).with_context("compiling the item segment".to_owned()));
            },
        };
        let after_compiled = match compile_template(after) {
            Ok(t) => t,
            Err(e) => {
                return Err(ErrorChain::new(e).with_context("compiling the footer segment".to_owned()));
            },
        };
        let tpl = SplitTemplate {
            name: name.clone(),
            registry: self.registry,
            before_list: leak_template(before_compiled),
            list_content: leak_template(item_compiled),
            after_list: leak_template(after_compiled),
        };
        let ghost pre = self.templates@;
        self.templates.push((name, tpl));
        proof {
            let post = self.templates@;
            assert(post =~= pre.push((name, tpl)));
            lemma_tpl_absent_get_none(pre, name@, 0);
            lemma_tpl_lookup_last(post, name@);
            assert forall|other: Seq<char>| other != name@ implies spec_tpl_get_from(
                post,
                other,
                0,
            ) == spec_tpl_get_from(pre, other, 0) by {
                lemma_tpl_push_other(pre, (name, tpl), other, 0);
            }
        }
        Ok(())
    }

    /// Index of the entry named `name`, if any.
    fn find(&self, name: &String) -> (r: Option<usize>)
        ensures
            match r {
                Some(i) => i < self.templates@.len() && self.templates@[i as int].0@ == name@,
                None => forall|m: int|
                    0 <= m < self.templates@.len() ==> self.templates@[m].0@ != name@,
            },
    {
        let n = self.templates.len();
        let mut i: usize = 0;
        while i < n
            invariant
                n == self.templates@.len(),
                i <= n,
                forall|m: int| 0 <= m < i ==> self.templates@[m].0@ != name@,
            decreases n - i,
        {
            if crate::json::str_equal(&self.templates[i].0, name) {
                return Some(i);
            }
            i += 1;
        }
        None
    }

    /// The template registered under `name`, borrowed, if any.
    pub fn resolve(&self, name: &str) -> (r: Option<&SplitTemplate>)
        ensures
            match self.spec_resolve(name@) {
                Some(t) => r matches Some(out) && *out == t,
                None => r is None,
            },
    {
        let n = self.templates.len();
        let mut i: usize = 0;
        while i < n
            invariant
                n == self.templates@.len(),
                i <= n,
                spec_tpl_get_from(self.templates@, name@, 0) == spec_tpl_get_from(
                    self.templates@,
                    name@,
                    i as int,
                ),
            decreases n - i,
        {
            if crate::json::str_equal(&self.templates[i].0, name) {
                proof {
                    assert(spec_tpl_get_from(self.templates@, name@, i as int) == Some(
                        self.templates@[i as int].1,
                    ));
                }
                return Some(&self.templates[i].1);
            }
            proof {
                assert(spec_tpl_get_from(self.templates@, name@, i as int) == spec_tpl_get_from(
                    self.templates@,
                    name@,
                    i + 1,
                ));
            }
            i += 1;
        }
        None
    }
}

proof fn lemma_tpl_absent_get_none(entries: Seq<(String, SplitTemplate)>, name: Seq<char>, i: int)
    requires
        0 <= i <= entries.len(),
        forall|m: int| 0 <= m < entries.len() ==> entries[m].0@ != name,
    ensures
        spec_tpl_get_from(entries, name, i) is None,
    decreases entries.len() - i,
{
    if i < entries.len() {
        lemma_tpl_absent_get_none(entries, name, i + 1);
    }
}

proof fn lemma_tpl_lookup_last(entries: Seq<(String, SplitTemplate)>, name: Seq<char>)
    requires
        entries.len() >= 1,
        entries.last().0@ == name,
        forall|m: int| 0 <= m < entries.len() - 1 ==> entries[m].0@ != name,
    ensures
        spec_tpl_get_from(entries, name, 0) == Some(entries.last().1),
{
    lemma_tpl_lookup_last_from(entries, name, 0);
}

proof fn lemma_tpl_lookup_last_from(
    entries: Seq<(String, SplitTemplate)>,
    name: Seq<char>,
    i: int,
)
    requires
        entries.len() >= 1,
        entries.last().0@ == name,
        forall|m: int| 0 <= m < entries.len() - 1 ==> entries[m].0@ != name,
        0 <= i <= entries.len() - 1,
    ensures
        spec_tpl_get_from(entries, name, i) == Some(entries.last().1),
    decreases entries.len() - i,
{
    if i < entries.len() - 1 {
        lemma_tpl_lookup_last_from(entries, name, i + 1);
    }
}

proof fn lemma_tpl_push_other(
    entries: Seq<(String, SplitTemplate)>,
    p: (String, SplitTemplate),
    other: Seq<char>,
    i: int,
)
    requires
        other != p.0@,
        0 <= i <= entries.len(),
    ensures
        spec_tpl_get_from(entries.push(p), other, i) == spec_tpl_get_from(entries, other, i),
    decreases entries.len() - i,
{
    if i < entries.len() {
        assert(entries.push(p)[i] == entries[i]);
        lemma_tpl_push_other(entries, p, other, i + 1);
    } else {
        assert(entries.push(p)[i] == p);
        assert(spec_tpl_get_from(entries.push(p), other, i + 1) is None);
    }
}

} // verus!
