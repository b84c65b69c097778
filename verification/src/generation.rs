use vstd::prelude::*;
use crate::error::Error;

verus! {

/// When the logits that choose the first new token are computed.
#[derive(Debug, Clone, Copy, PartialEq, Eq)]
pub enum Schedule {
    /// The logits of the last prompt position, computed during the prefill,
    /// choose the first new token.
    KeepPrefillLogits,
    /// The prefill only fills the cache; the last prompt token is fed again
    /// (at its own position) to choose the first new token.
    RefeedLastPrompt,
}

/// What the caller does next.
#[derive(Debug, Clone, Copy, PartialEq, Eq)]
pub enum GenAction {
    /// Run the model on `token` at position `pos`.
    Forward { token: u32, pos: usize },
    /// Choose the next token from the logits of the last forward pass.
    Sample,
    /// Generation is complete.
    Finish,
}

/// The schedule of autoregressive generation: prefill the prompt, then
/// alternate sampling and feeding back the sampled token.
pub struct Generation {
    ids: Vec<u32>,
    n_prompt: usize,
    max_tokens: usize,
    prefilled: usize,
    pending: bool,
    schedule: Schedule,
}

/// The context check of generation: `n_prompt + max_tokens` may not exceed
/// `max_seq_len`.
pub open spec fn context_ok(n_prompt: nat, max_tokens: nat, max_seq_len: nat) -> bool {
    n_prompt + max_tokens <= max_seq_len
}

/// Fails with a context overflow when the prompt and the new tokens do not
/// fit in the context.
pub fn check_context(n_prompt: usize, max_tokens: usize, max_seq_len: usize) -> (r: Result<(), Error>)
    requires
        n_prompt + max_tokens <= usize::MAX,
    ensures
        context_ok(n_prompt as nat, max_tokens as nat, max_seq_len as nat) ==> r is Ok,
        !context_ok(n_prompt as nat, max_tokens as nat, max_seq_len as nat) ==> r == Err::<(), Error>(
            Error::ContextOverflow { max: max_seq_len, requested: (n_prompt + max_tokens) as usize },
        ),
{
    if n_prompt + max_tokens > max_seq_len {
        Err(Error::ContextOverflow { max: max_seq_len, requested: n_prompt + max_tokens })
    } else {
        Ok(())
    }
}

impl Generation {
    /// The prompt followed by the tokens sampled so far.
    pub closed spec fn spec_ids(&self) -> Seq<u32> {
        self.ids@
    }

    pub closed spec fn spec_n_prompt(&self) -> nat {
        self.n_prompt as nat
    }

    pub closed spec fn spec_max_tokens(&self) -> nat {
        self.max_tokens as nat
    }

    /// Prompt positions already fed to the model.
    pub closed spec fn spec_prefilled(&self) -> nat {
        self.prefilled as nat
    }

    /// Logits are waiting to be sampled.
    pub closed spec fn spec_pending(&self) -> bool {
        self.pending
    }

    pub closed spec fn spec_schedule(&self) -> Schedule {
        self.schedule
    }

    /// Tokens sampled so far.
    pub open spec fn generated_count(&self) -> nat {
        (self.spec_ids().len() - self.spec_n_prompt()) as nat
    }

    /// The consistent states of the schedule.
    pub open spec fn wf(&self) -> bool {
        &&& self.spec_n_prompt() <= self.spec_ids().len()
        &&& self.generated_count() <= self.spec_max_tokens()
        &&& self.spec_prefilled() <= self.spec_n_prompt()
        &&& self.spec_prefilled() < self.spec_n_prompt() ==> self.spec_ids().len() == self.spec_n_prompt() && !self.spec_pending()
        &&& self.spec_n_prompt() == 0 ==> self.spec_max_tokens() == 0
        &&& self.spec_n_prompt() + self.spec_max_tokens() <= usize::MAX
    }

    /// The action that the state calls for.
    pub open spec fn spec_next(&self) -> GenAction {
        if self.spec_prefilled() < self.spec_n_prompt() {
            GenAction::Forward {
                token: self.spec_ids()[self.spec_prefilled() as int],
                pos: self.spec_prefilled() as usize,
            }
        } else if self.generated_count() == self.spec_max_tokens() {
            GenAction::Finish
        } else if self.spec_pending() {
            GenAction::Sample
        } else {
            GenAction::Forward {
                token: self.spec_ids().last(),
                pos: (self.spec_ids().len() - 1) as usize,
            }
        }
    }

    /// Actions left before `Finish`: prompt positions to feed, two actions per
    /// token still to sample, less one where logits are already waiting.
    pub open spec fn steps_left(&self) -> int {
        (self.spec_n_prompt() - self.spec_prefilled()) + 2 * (self.spec_max_tokens() - self.generated_count())
            + if self.spec_pending() { 0int } else { 1int }
    }

    /// Begins generating `max_tokens` tokens after the prompt `prompt_ids`.
    pub fn new(prompt_ids: Vec<u32>, max_tokens: usize, schedule: Schedule) -> (g: Generation)
        requires
            prompt_ids@.len() == 0 ==> max_tokens == 0,
            prompt_ids@.len() + max_tokens <= usize::MAX,
        ensures
            g.wf(),
            g.spec_ids() == prompt_ids@,
            g.spec_n_prompt() == prompt_ids@.len(),
            g.spec_max_tokens() == max_tokens,
            g.spec_prefilled() == 0,
            !g.spec_pending(),
            g.spec_schedule() == schedule,
    {
        let n_prompt = prompt_ids.len();
        Generation { ids: prompt_ids, n_prompt, max_tokens, prefilled: 0, pending: false, schedule }
    }

    /// The next action.
    pub fn next_action(&self) -> (a: GenAction)
        requires
            self.wf(),
        ensures
            a == self.spec_next(),
    {
        if self.prefilled < self.n_prompt {
            GenAction::Forward { token: self.ids[self.prefilled], pos: self.prefilled }
        } else if self.ids.len() - self.n_prompt == self.max_tokens {
            GenAction::Finish
        } else if self.pending {
            GenAction::Sample
        } else {
            let last = self.ids.len() - 1;
            GenAction::Forward { token: self.ids[last], pos: last }
        }
    }

    /// Records that the forward pass that `next_action` asked for was run.
    pub fn forward_done(&mut self)
        requires
            old(self).wf(),
            old(self).spec_next() is Forward,
        ensures
            final(self).wf(),
            final(self).spec_ids() == old(self).spec_ids(),
            final(self).spec_n_prompt() == old(self).spec_n_prompt(),
            final(self).spec_max_tokens() == old(self).spec_max_tokens(),
            final(self).spec_schedule() == old(self).spec_schedule(),
            old(self).spec_prefilled() < old(self).spec_n_prompt() ==> final(self).spec_prefilled()
                == old(self).spec_prefilled() + 1,
            old(self).spec_prefilled() < old(self).spec_n_prompt() ==> (final(self).spec_pending()
                <==> (old(self).spec_prefilled() + 1 == old(self).spec_n_prompt()
                && old(self).spec_schedule() == Schedule::KeepPrefillLogits)),
            old(self).spec_prefilled() == old(self).spec_n_prompt() ==> final(self).spec_prefilled()
                == old(self).spec_prefilled() && final(self).spec_pending(),
            final(self).steps_left() < old(self).steps_left(),
    {
        if self.prefilled < self.n_prompt {
            self.prefilled = self.prefilled + 1;
            self.pending = self.prefilled == self.n_prompt && match self.schedule {
                Schedule::KeepPrefillLogits => true,
                Schedule::RefeedLastPrompt => false,
            };
        } else {
            self.pending = true;
        }
    }

    /// Records the token that was sampled.
    pub fn sampled(&mut self, token: u32)
        requires
            old(self).wf(),
            old(self).spec_next() is Sample,
        ensures
            final(self).wf(),
            final(self).spec_ids() == old(self).spec_ids().push(token),
            final(self).spec_n_prompt() == old(self).spec_n_prompt(),
            final(self).spec_max_tokens() == old(self).spec_max_tokens(),
            final(self).spec_prefilled() == old(self).spec_prefilled(),
            final(self).spec_schedule() == old(self).spec_schedule(),
            !final(self).spec_pending(),
            final(self).steps_left() < old(self).steps_left(),
    {
        self.ids.push(token);
        self.pending = false;
    }

    /// The tokens sampled so far.
    pub fn generated(&self) -> (r: Vec<u32>)
        requires
            self.wf(),
        ensures
            r@ == self.spec_ids().skip(self.spec_n_prompt() as int),
    {
        let mut out: Vec<u32> = Vec::new();
        let mut i = self.n_prompt;
        while i < self.ids.len()
            invariant
                self.n_prompt <= i <= self.ids@.len(),
                out@ == self.ids@.subrange(self.n_prompt as int, i as int),
            decreases self.ids@.len() - i,
        {
            out.push(self.ids[i]);
            i = i + 1;
            assert(out@ =~= self.ids@.subrange(self.n_prompt as int, i as int));
        }
        assert(self.ids@.skip(self.n_prompt as int) =~= self.ids@.subrange(self.n_prompt as int, self.ids@.len() as int));
        out
    }

    /// The number of prompt tokens.
    pub fn prompt_len(&self) -> (n: usize)
        ensures
            n == self.spec_n_prompt(),
    {
        self.n_prompt
    }
}

/// Every forward pass that the schedule asks for feeds the token at its own
/// position, and every position lies inside the prompt and the tokens to
/// generate, so a cache of `n_prompt + max_tokens` positions holds them all.
pub proof fn lemma_forward_in_context(g: Generation)
    requires
        g.wf(),
    ensures
        g.spec_next() matches GenAction::Forward { token, pos } ==> {
            &&& pos < g.spec_n_prompt() + g.spec_max_tokens()
            &&& pos < g.spec_ids().len()
            &&& token == g.spec_ids()[pos as int]
        },
{
}

/// The schedule finishes only once the whole prompt was fed and exactly
/// `max_tokens` tokens were sampled; it never samples more.
pub proof fn lemma_finish_complete(g: Generation)
    requires
        g.wf(),
    ensures
        g.spec_next() is Finish <==> (g.spec_prefilled() == g.spec_n_prompt()
            && g.generated_count() == g.spec_max_tokens()),
        g.spec_next() is Sample ==> g.generated_count() < g.spec_max_tokens(),
        g.steps_left() >= 0,
{
}

/// The result of a generation request.
#[derive(Debug, Clone)]
pub struct GeneratedText {
    pub text: String,
    pub tokens: Vec<u32>,
    pub token_count: usize,
    pub prompt_tokens: usize,
}

} // verus!
