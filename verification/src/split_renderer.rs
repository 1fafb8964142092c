//! Renders one split template in three phases: start, item*, end.
//!
//! The renderer owns the block-local state between phases.  `render_start`
//! installs the page data, emits the header segment and captures the state;
//! each `render_item` re-injects it, renders the item segment with the row as
//! the block's base value and a 0-based `row_index` local variable, and
//! re-captures it; `render_end` re-injects it one last time for the footer
//! segment and clears it.  An instance is "open" while it holds that state:
//! an item or end render before the start, or after the end, is a no-op, and
//! a second end emits nothing.

use vstd::prelude::*;
use vstd::string::*;
use crate::error::ErrorChain;
use crate::json::JsonVal;
use crate::templates::{
    context_null, context_with_data, render_after_segment, render_before_segment,
    render_item_segment, BlockLocals, SplitTemplate,
};

verus! {

/// Renders one [`SplitTemplate`] instance across its three phases.
pub struct SplitTemplateRenderer {
    template: SplitTemplate,
    ctx: handlebars::Context,
    locals: Option<BlockLocals>,
    row_index: usize,
    page_data: Ghost<JsonVal>,
}

impl SplitTemplateRenderer {
    /// Whether the instance is open: started, not yet ended, holding the
    /// block-local state of its last render.
    pub closed spec fn is_open(self) -> bool {
        self.locals is Some
    }

    /// How many items the open instance has rendered; the `row_index` the
    /// next item render receives.
    pub closed spec fn idx(self) -> usize {
        self.row_index
    }

    /// The template the instance renders.
    pub closed spec fn spec_template(self) -> SplitTemplate {
        self.template
    }

    /// The page-level data the instance was last started with.
    pub closed spec fn data_of(self) -> JsonVal {
        self.page_data@
    }

    /// A closed instance of `template`, ready for `render_start`.
    pub fn new(template: SplitTemplate) -> (r: Self)
        ensures
            !r.is_open(),
            r.idx() == 0,
            r.spec_template() == template,
    {
        SplitTemplateRenderer {
            template,
            ctx: context_null(),
            locals: None,
            row_index: 0,
            page_data: Ghost(JsonVal::Null),
        }
    }

    /// The component name of the template the instance renders.
    pub fn name(&self) -> (r: &String)
        ensures
            r@ == self.spec_template().spec_name(),
    {
        self.template.name()
    }

    /// Whether the instance is open, at run time.
    pub fn opened(&self) -> (r: bool)
        ensures
            r == self.is_open(),
    {
        self.locals.is_some()
    }

    /// The `row_index` the next item render would receive, at run time.
    pub fn row_index(&self) -> (r: usize)
        ensures
            r == self.idx(),
    {
        self.row_index
    }

    /// Opens the instance: installs `data` as the root data context, emits
    /// the header segment onto `out`, captures the block-local state and
    /// resets the item counter.  Called exactly once before any item or end
    /// render.  On failure nothing is emitted and the instance stays closed.
    pub fn render_start(&mut self, out: &mut String, data: &JsonVal) -> (r: Result<
        (),
        ErrorChain,
    >)
        requires
            !old(self).is_open(),
        ensures
            final(self).spec_template() == old(self).spec_template(),
            final(self).data_of() == *data,
            r is Ok ==> final(self).is_open() && final(self).idx() == 0 && old(
                out,
            )@.is_prefix_of(final(out)@),
            r is Err ==> !final(self).is_open() && final(out)@ == old(out)@,
            r matches Err(e) ==> e.wf(),
    {
        self.ctx = context_with_data(data);
        self.page_data = Ghost(*data);
        match render_before_segment(self.template.registry, self.template.before_list, &self.ctx) {
            Ok((text, locals)) => {
                out.append(text.as_str());
                self.locals = Some(locals);
                self.row_index = 0;
                Ok(())
            },
            Err(e) => {
                self.locals = None;
                Err(ErrorChain::new(e))
            },
        }
    }

    /// Renders one item: re-injects the block-local state, renders the item
    /// segment with `data` as the block's base value and the current counter
    /// as `row_index`, re-captures the state and steps the counter.  On a
    /// closed instance it is a no-op that emits nothing.  On failure nothing
    /// is emitted and the instance closes.
    pub fn render_item(&mut self, out: &mut String, data: &JsonVal) -> (r: Result<
        (),
        ErrorChain,
    >)
        ensures
            final(self).spec_template() == old(self).spec_template(),
            !old(self).is_open() ==> r is Ok && *final(self) == *old(self) && final(out)@ == old(
                out,
            )@,
            old(self).is_open() && r is Ok ==> final(self).is_open() && final(self).idx() == old(
                self,
            ).idx() + 1 && old(out)@.is_prefix_of(final(out)@),
            old(self).is_open() && r is Err ==> !final(self).is_open() && final(out)@ == old(
                out,
            )@,
            old(self).is_open() && old(self).idx() == usize::MAX ==> r is Err,
            r matches Err(e) ==> e.wf(),
    {
        let locals = match self.locals.take() {
            Some(l) => l,
            None => {
                return Ok(());
            },
        };
        if self.row_index == usize::MAX {
            return Err(ErrorChain::new("the row counter is exhausted".to_owned()));
        }
        match render_item_segment(
            self.template.registry,
            self.template.list_content,
            &self.ctx,
            locals,
            data,
            self.row_index,
        ) {
            Ok((text, new_locals)) => {
                out.append(text.as_str());
                self.locals = Some(new_locals);
                self.row_index = self.row_index + 1;
                Ok(())
            },
            Err(e) => Err(ErrorChain::new(e)),
        }
    }

    /// Closes the instance: re-injects the block-local state, renders the
    /// footer segment and clears the state.  On a closed instance it is a
    /// no-op that emits nothing, so a second end changes nothing.  Open or
    /// closed, failed or not, the instance is closed afterwards.
    pub fn render_end(&mut self, out: &mut String) -> (r: Result<(), ErrorChain>)
        ensures
            final(self).spec_template() == old(self).spec_template(),
            !final(self).is_open(),
            final(self).idx() == old(self).idx(),
            !old(self).is_open() ==> r is Ok && *final(self) == *old(self) && final(out)@ == old(
                out,
            )@,
            old(self).is_open() && r is Ok ==> old(out)@.is_prefix_of(final(out)@),
            r is Err ==> final(out)@ == old(out)@,
            r matches Err(e) ==> e.wf(),
    {
        let locals = match self.locals.take() {
            Some(l) => l,
            None => {
                return Ok(());
            },
        };
        match render_after_segment(
            self.template.registry,
            self.template.after_list,
            &self.ctx,
            locals,
        ) {
            Ok(text) => {
                out.append(text.as_str());
                Ok(())
            },
            Err(e) => Err(ErrorChain::new(e)),
        }
    }
}

} // verus!
