//! The error value the renderer reports with.
//!
//! An error is a chain of messages, outermost first: the head is the
//! user-visible description, the tail the causes it wraps.  The chain is what
//! the inline `error` component renders and what the row stream hands over
//! when query preparation fails.

use vstd::prelude::*;
use vstd::string::*;

verus! {

/// A chain of error messages, outermost message first.  Always non-empty.
#[derive(Debug)]
pub struct ErrorChain {
    chain: Vec<String>,
}

impl ErrorChain {
    /// The messages of the chain, outermost first.
    pub closed spec fn messages(self) -> Seq<Seq<char>> {
        self.chain.deep_view()
    }

    /// A chain is well formed when it holds at least one message.
    pub open spec fn wf(self) -> bool {
        self.messages().len() >= 1
    }

    /// An error with a single message.
    pub fn new(message: String) -> (r: Self)
        ensures
            r.messages() =~~= seq![message@],
            r.wf(),
    {
        let mut chain: Vec<String> = Vec::new();
        chain.push(message);
        ErrorChain { chain }
    }

    /// Wraps the error in one more message, which becomes the new outermost
    /// description.
    pub fn with_context(self, message: String) -> (r: Self)
        ensures
            r.messages() =~~= seq![message@] + self.messages(),
            r.wf(),
    {
        let mut chain = self.chain;
        chain.insert(0, message);
        let r = ErrorChain { chain };
        proof {
            assert(r.messages() =~~= seq![message@] + self.messages());
        }
        r
    }

    /// The outermost message.
    pub fn message(&self) -> (r: &String)
        requires
            self.wf(),
        ensures
            r@ == self.messages()[0],
    {
        &self.chain[0]
    }

    /// The messages the outermost one wraps, outermost first.
    pub fn causes(&self) -> (r: Vec<String>)
        requires
            self.wf(),
        ensures
            r.deep_view() =~~= self.messages().drop_first(),
    {
        let n = self.chain.len();
        let mut out: Vec<String> = Vec::new();
        let mut i: usize = 1;
        while i < n
            invariant
                1 <= i <= n,
                n == self.chain@.len(),
                out@.len() == i - 1,
                forall|m: int| 0 <= m < i - 1 ==> out@[m]@ == self.chain@[m + 1]@,
            decreases n - i,
        {
            out.push(self.chain[i].clone());
            i += 1;
        }
        proof {
            assert forall|m: int| 0 <= m < out@.len() implies out.deep_view()[m]
                == self.messages().drop_first()[m] by {
                assert(out.deep_view()[m] == out@[m]@);
                assert(self.messages().drop_first()[m] == self.chain@[m + 1]@);
            }
            assert(out.deep_view() =~= self.messages().drop_first());
        }
        out
    }

    /// A copy of the message at position `i`, outermost being position 0.
    pub fn cause_at(&self, i: usize) -> (r: String)
        requires
            i < self.messages().len(),
        ensures
            r@ == self.messages()[i as int],
    {
        self.chain[i].clone()
    }

    /// How many messages the chain holds.
    pub fn len(&self) -> (r: usize)
        ensures
            r == self.messages().len(),
    {
        self.chain.len()
    }
}

} // verus!
