//! The decisions of AI script authoring with self-repair: ask a generator for a script,
//! dry-run it, and on failure feed the error back and ask again, up to a budget of
//! attempts. The generator and the dry run are performed by the caller; this state machine
//! says what to do next and keeps the record of failed attempts.

use crate::paths::{is_white_space, lemma_trimmed, trim_bounds, trimmed, white_space};
use crate::strings::push_char;
use crate::textnav::char_vec;
use vstd::prelude::*;

verus! {

/// One failed generation attempt: the source produced (empty when generation itself failed)
/// and the error it hit. Fed back to the generator so it can repair its previous output.
#[derive(Clone, Debug)]
pub struct Attempt {
    pub source: String,
    pub error: String,
}

/// Produces script source for a natural-language request. `system` describes what scripts
/// can call; `prior` is the previous failed attempt, for self-repair. Returns the raw source,
/// or an error message when generation failed.
pub trait ScriptGenerator {
    fn generate(&self, request: &str, system: &str, prior: Option<&Attempt>) -> Result<
        String,
        String,
    >;
}

/// What the caller does next.
#[derive(Clone, Debug)]
pub enum AuthorAction {
    /// Ask the generator for (another) script, passing the last failed attempt if any.
    Generate,
    /// Dry-run this source.
    DryRun(String),
    /// This source ran cleanly: it is the result.
    Done(String),
    /// The budget is spent; every failed attempt is on record.
    GiveUp,
}

/// A failed attempt, as plain values.
pub open spec fn attempt_view(a: Attempt) -> (Seq<char>, Seq<char>) {
    (a.source@, a.error@)
}

/// The authoring loop between two steps: the failed attempts so far, oldest first, and the
/// number of attempts allowed.
pub struct Authoring {
    attempts: Vec<Attempt>,
    budget: usize,
}

impl Authoring {
    pub closed spec fn spec_attempts(&self) -> Seq<Attempt> {
        self.attempts@
    }

    pub closed spec fn spec_budget(&self) -> nat {
        self.budget as nat
    }

    /// At least one attempt is allowed, and no more than the budget have been made.
    pub open spec fn wf(&self) -> bool {
        &&& self.spec_budget() >= 1
        &&& self.spec_attempts().len() <= self.spec_budget()
    }

    /// Attempts may still be made.
    pub open spec fn running(&self) -> bool {
        self.spec_attempts().len() < self.spec_budget()
    }

    /// A fresh loop allowing `max_attempts` attempts (at least one).
    pub fn new(max_attempts: usize) -> (a: Self)
        ensures
            a.wf(),
            a.running(),
            a.spec_attempts().len() == 0,
            a.spec_budget() == if max_attempts == 0 {
                1
            } else {
                max_attempts as nat
            },
    {
        let budget = if max_attempts == 0 {
            1
        } else {
            max_attempts
        };
        Authoring { attempts: Vec::new(), budget }
    }

    /// The last failed attempt, to be fed back to the generator.
    pub fn prior(&self) -> (p: Option<&Attempt>)
        ensures
            self.spec_attempts().len() == 0 ==> p is None,
            self.spec_attempts().len() > 0 ==> p == Some(
                &self.spec_attempts()[self.spec_attempts().len() - 1],
            ),
    {
        if self.attempts.len() == 0 {
            None
        } else {
            Some(&self.attempts[self.attempts.len() - 1])
        }
    }

    /// The failed attempts so far, oldest first.
    pub fn attempts(&self) -> (v: &Vec<Attempt>)
        ensures
            v@ == self.spec_attempts(),
    {
        &self.attempts
    }

    /// Give up the record of failed attempts.
    pub fn into_attempts(self) -> (v: Vec<Attempt>)
        ensures
            v@ == self.spec_attempts(),
    {
        self.attempts
    }

    fn record(&mut self, source: String, error: String)
        requires
            old(self).wf(),
            old(self).running(),
        ensures
            final(self).wf(),
            final(self).spec_budget() == old(self).spec_budget(),
            final(self).spec_attempts() == old(self).spec_attempts().push(
                Attempt { source, error },
            ),
    {
        self.attempts.push(Attempt { source, error });
    }

    /// The generator answered. A script is dry-run next; a generation error is recorded as a
    /// failed attempt with empty source, and the loop asks again unless the budget is spent.
    pub fn on_generated(&mut self, generated: Result<String, String>) -> (next: AuthorAction)
        requires
            old(self).wf(),
            old(self).running(),
        ensures
            final(self).wf(),
            final(self).spec_budget() == old(self).spec_budget(),
            match generated {
                Ok(src) => {
                    &&& final(self).spec_attempts() == old(self).spec_attempts()
                    &&& next matches AuthorAction::DryRun(s) && s == src
                },
                Err(e) => {
                    &&& attempt_view(final(self).spec_attempts().last()) == (
                        Seq::<char>::empty(),
                        e@,
                    )
                    &&& final(self).spec_attempts().drop_last() == old(self).spec_attempts()
                    &&& (next is Generate) == final(self).running()
                    &&& (next is GiveUp) == !final(self).running()
                },
            },
    {
        match generated {
            Ok(src) => AuthorAction::DryRun(src),
            Err(e) => {
                self.record(String::new(), e);
                assert(self.attempts@.drop_last() =~= old(self).attempts@);
                if self.attempts.len() < self.budget {
                    AuthorAction::Generate
                } else {
                    AuthorAction::GiveUp
                }
            },
        }
    }

    /// The dry run of `source` finished. A clean run ends the loop with `source`; an error is
    /// recorded with the source that hit it, and the loop asks again unless the budget is spent.
    pub fn on_dry_run(&mut self, source: String, outcome: Result<(), String>) -> (next:
        AuthorAction)
        requires
            old(self).wf(),
            old(self).running(),
        ensures
            final(self).wf(),
            final(self).spec_budget() == old(self).spec_budget(),
            match outcome {
                Ok(()) => {
                    &&& final(self).spec_attempts() == old(self).spec_attempts()
                    &&& next matches AuthorAction::Done(s) && s == source
                },
                Err(e) => {
                    &&& final(self).spec_attempts() == old(self).spec_attempts().push(
                        Attempt { source, error: e },
                    )
                    &&& (next is Generate) == final(self).running()
                    &&& (next is GiveUp) == !final(self).running()
                },
            },
    {
        match outcome {
            Ok(()) => AuthorAction::Done(source),
            Err(e) => {
                self.record(source, e);
                if self.attempts.len() < self.budget {
                    AuthorAction::Generate
                } else {
                    AuthorAction::GiveUp
                }
            },
        }
    }
}

/// A Markdown code fence.
pub open spec fn fence() -> Seq<char> {
    seq!['`', '`', '`']
}

/// `cs[..end]` is `cs` with its trailing white space removed.
pub open spec fn trims_end_to(cs: Seq<char>, end: int) -> bool {
    &&& 0 <= end <= cs.len()
    &&& forall|i: int| end <= i < cs.len() ==> is_white_space(#[trigger] cs[i])
    &&& end > 0 ==> !is_white_space(cs[end - 1])
}

/// `cs` with its trailing white space removed (what `str::trim_end` keeps).
pub open spec fn trimmed_end(cs: Seq<char>) -> Seq<char> {
    cs.take(choose|e: int| trims_end_to(cs, e))
}

proof fn lemma_trimmed_end(cs: Seq<char>, e: int)
    requires
        trims_end_to(cs, e),
    ensures
        trimmed_end(cs) == cs.take(e),
{
    let e2 = choose|e: int| trims_end_to(cs, e);
    assert(trims_end_to(cs, e2));
    if e2 < e {
        assert(is_white_space(cs[e - 1]));
    } else if e < e2 {
        assert(is_white_space(cs[e2 - 1]));
    }
}

/// The index of the first line break in `cs`, if any.
#[verifier::opaque]
pub open spec fn first_newline(cs: Seq<char>) -> Option<int> {
    if exists|i: int| 0 <= i < cs.len() && cs[i] == '\n' {
        Some(choose|i: int| 0 <= i < cs.len() && cs[i] == '\n' && forall|j: int| 0 <= j < i ==> cs[j] != '\n')
    } else {
        None
    }
}

/// The code inside what follows a fence's first line: trailing white space and a closing
/// fence dropped, then trimmed.
#[verifier::opaque]
pub open spec fn fenced_code(after_lang: Seq<char>) -> Seq<char> {
    let body = trimmed_end(after_lang);
    let inner = if body.len() >= 3 && body.skip(body.len() - 3) == fence() {
        body.take(body.len() - 3)
    } else {
        body
    };
    trimmed(inner)
}

/// Model output with a Markdown code fence stripped: when the trimmed text opens with a
/// fence, the fence's first line (with its optional language tag) and a closing fence are
/// dropped and the code inside is trimmed; any other text is only trimmed.
pub open spec fn strip_fences_spec(text: Seq<char>) -> Seq<char> {
    let t = trimmed(text);
    if t.len() >= 3 && t.take(3) == fence() {
        let rest = t.skip(3);
        match first_newline(rest) {
            Some(i) => fenced_code(rest.skip(i + 1)),
            None => fenced_code(Seq::empty()),
        }
    } else {
        t
    }
}

fn is_fence_at(cs: &Vec<char>, i: usize) -> (r: bool)
    requires
        i + 3 <= cs.len(),
    ensures
        r == (cs@.subrange(i as int, i + 3) == fence()),
{
    let r = cs[i] == '`' && cs[i + 1] == '`' && cs[i + 2] == '`';
    assert(r ==> cs@.subrange(i as int, i + 3) =~= fence());
    assert(cs@.subrange(i as int, i + 3) == fence() ==> cs@.subrange(i as int, i + 3)[0] == '`'
        && cs@.subrange(i as int, i + 3)[1] == '`' && cs@.subrange(i as int, i + 3)[2] == '`');
    r
}

fn collect_chars(cs: &Vec<char>, from: usize, to: usize) -> (s: String)
    requires
        from <= to <= cs.len(),
    ensures
        s@ == cs@.subrange(from as int, to as int),
{
    let mut s = String::new();
    let mut i = from;
    while i < to
        invariant
            from <= i <= to <= cs.len(),
            s@ == cs@.subrange(from as int, i as int),
        decreases to - i,
    {
        push_char(&mut s, cs[i]);
        i = i + 1;
        assert(s@ =~= cs@.subrange(from as int, i as int));
    }
    s
}

/// Where what follows the first line break of `cs[from..to]` starts (`to` when there is
/// none).
fn after_first_line(cs: &Vec<char>, from: usize, to: usize) -> (r: usize)
    requires
        from <= to <= cs.len(),
    ensures
        from <= r <= to,
        match first_newline(cs@.subrange(from as int, to as int)) {
            Some(k) => r == from + k + 1,
            None => r == to,
        },
{
    let ghost rest = cs@.subrange(from as int, to as int);
    proof {
        reveal(first_newline);
    }
    let mut i = from;
    while i < to && cs[i] != '\n'
        invariant
            from <= i <= to <= cs.len(),
            rest == cs@.subrange(from as int, to as int),
            forall|j: int| 0 <= j < i - from ==> rest[j] != '\n',
        decreases to - i,
    {
        assert(rest[i - from] == cs@[i as int]);
        i = i + 1;
    }
    proof {
        if i < to {
            let k = i - from;
            assert(rest[k] == '\n');
            let f = choose|f: int|
                0 <= f < rest.len() && rest[f] == '\n' && forall|j: int| 0 <= j < f ==> rest[j] != '\n';
            if f < k {
                assert(rest[f] != '\n');
            }
            if k < f {
                assert(rest[k] != '\n');
            }
        } else {
            assert forall|j: int| 0 <= j < rest.len() implies rest[j] != '\n' by {}
        }
    }
    if i < to {
        i + 1
    } else {
        to
    }
}

/// The bounds within `cs` of `fenced_code(cs[from..to])`.
fn fenced_code_bounds(cs: &Vec<char>, from: usize, to: usize) -> (r: (usize, usize))
    requires
        from <= to <= cs.len(),
    ensures
        from <= r.0 <= r.1 <= to,
        cs@.subrange(r.0 as int, r.1 as int) == fenced_code(cs@.subrange(from as int, to as int)),
{
    let ghost after_lang = cs@.subrange(from as int, to as int);
    proof {
        reveal(fenced_code);
    }
    let mut e = to;
    while e > from && white_space(cs[e - 1])
        invariant
            from <= e <= to <= cs.len(),
            after_lang == cs@.subrange(from as int, to as int),
            forall|j: int| e - from <= j < after_lang.len() ==> is_white_space(#[trigger] after_lang[j]),
        decreases e - from,
    {
        e = e - 1;
    }
    proof {
        assert(trims_end_to(after_lang, e - from));
        lemma_trimmed_end(after_lang, e - from);
        assert(after_lang.take(e - from) =~= cs@.subrange(from as int, e as int));
    }
    let ghost body = cs@.subrange(from as int, e as int);
    let mut stop = e;
    if e - from >= 3 && is_fence_at(&cs, e - 3) {
        stop = e - 3;
        proof {
            assert(body.skip(body.len() - 3) =~= cs@.subrange(e - 3, e as int));
            assert(body.take(body.len() - 3) =~= cs@.subrange(from as int, stop as int));
        }
    } else {
        proof {
            if body.len() >= 3 {
                assert(body.skip(body.len() - 3) =~= cs@.subrange(e - 3, e as int));
            }
        }
    }
    let (p, q) = trim_bounds(&cs, from, stop);
    proof {
        lemma_trimmed(cs@.subrange(from as int, stop as int), p - from, q - from);
        assert(cs@.subrange(from as int, stop as int).subrange(p - from, q - from)
            =~= cs@.subrange(p as int, q as int));
    }
    (p, q)
}

/// Strip a Markdown code fence (three backticks, optionally followed by a language tag, up
/// to the closing fence) from model output, leaving just the code.
pub fn strip_code_fences(text: &str) -> (code: String)
    ensures
        code@ == strip_fences_spec(text@),
{
    let cs = char_vec(text);
    let n = cs.len();
    let (a, b) = trim_bounds(&cs, 0, n);
    let ghost t = cs@.subrange(a as int, b as int);
    proof {
        assert(cs@.subrange(0, n as int) =~= cs@);
        lemma_trimmed(cs@, a as int, b as int);
    }
    if b - a >= 3 && is_fence_at(&cs, a) {
        proof {
            assert(t.take(3) =~= cs@.subrange(a as int, a + 3));
            assert(t.skip(3) =~= cs@.subrange(a + 3, b as int));
        }
        let start = after_first_line(&cs, a + 3, b);
        proof {
            let rest = t.skip(3);
            match first_newline(rest) {
                Some(k) => {
                    assert(rest.skip(k + 1) =~= cs@.subrange(start as int, b as int));
                },
                None => {
                    assert(cs@.subrange(start as int, b as int) =~= Seq::<char>::empty());
                },
            }
        }
        let (p, q) = fenced_code_bounds(&cs, start, b);
        collect_chars(&cs, p, q)
    } else {
        proof {
            if b - a >= 3 {
                assert(t.take(3) =~= cs@.subrange(a as int, a + 3));
            }
        }
        collect_chars(&cs, a, b)
    }
}

} // verus!
