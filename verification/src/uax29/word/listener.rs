//! Those who hear of the boundaries.

use crate::uax29::word::model::{
    boundary, lemma_reports_prefix, report, reports, word_breaks, Report,
};
use crate::uax29::word::properties::CharInfo;
use crate::uax29::word::token::TokenProperties;
use vstd::prelude::*;

verus! {

/// Hears of boundaries one by one, and may refuse to hear more.
pub trait Listener: Sized {
    /// Can the listener be told of `report` when it has been told of `log`?
    spec fn takes(&self, log: Seq<(Report, bool)>, report: Report) -> bool;

    /// What the listener has been told, with its answers, in order.
    spec fn log(&self) -> Seq<(Report, bool)>;

    /// Is `answer` among the answers that the listener may give to `report`?
    spec fn may_answer(&self, report: Report, answer: bool) -> bool;

    /// Tells the listener of a boundary. `false`: it does not want to hear more.
    fn hear(&mut self, at: usize, props: TokenProperties) -> (more: bool)
        requires
            old(self).takes(old(self).log(), (at, props)),
        ensures
            final(self).log() == old(self).log().push(((at, props), more)),
            old(self).may_answer((at, props), more),
            forall|r: Report, a: bool| #[trigger]
                final(self).may_answer(r, a) == old(self).may_answer(r, a),
            forall|l: Seq<(Report, bool)>, r: Report| #[trigger]
                final(self).takes(l, r) == old(self).takes(l, r),
    ;
}

/// What the listener can be told, and its manner of answering, have not changed.
pub open spec fn same_manner<L: Listener>(before: L, after: L) -> bool {
    &&& forall|r: Report, a: bool| #[trigger] after.may_answer(r, a) == before.may_answer(r, a)
    &&& forall|l: Seq<(Report, bool)>, r: Report| #[trigger]
        after.takes(l, r) == before.takes(l, r)
}

/// The listener can be told of the reports `out`, one after the other, while it wants to hear more.
pub open spec fn takes_all<L: Listener>(listener: L, out: Seq<Report>) -> bool {
    forall|i: int|
        0 <= i < out.len() ==> listener.takes(
            listener.log() + accepted(out.take(i)),
            #[trigger] out[i],
        )
}

/// Of the reports `out`, the first ones were made, in order, up to the first one that was refused.
pub open spec fn heard(out: Seq<Report>, calls: Seq<(Report, bool)>) -> bool {
    &&& calls.len() <= out.len()
    &&& forall|i: int| 0 <= i < calls.len() ==> (#[trigger] calls[i]).0 == out[i]
    &&& forall|i: int| 0 <= i < calls.len() - 1 ==> (#[trigger] calls[i]).1
    &&& calls.len() < out.len() ==> calls.len() > 0 && !calls.last().1
}

/// Reports that were all accepted.
pub open spec fn accepted(out: Seq<Report>) -> Seq<(Report, bool)> {
    Seq::new(out.len(), |i: int| (out[i], true))
}

/// What the listener was told since `before`.
pub open spec fn told<L: Listener>(before: L, after: L) -> Seq<(Report, bool)> {
    after.log().subrange(before.log().len() as int, after.log().len() as int)
}

/// Between `before` and `after` the listener was told of `out`, as far as it wanted to hear, and
/// of nothing else.
pub open spec fn reported<L: Listener>(before: L, after: L, out: Seq<Report>) -> bool {
    &&& before.log().len() <= after.log().len()
    &&& after.log().subrange(0, before.log().len() as int) == before.log()
    &&& heard(out, told(before, after))
    &&& answered(before, after)
    &&& same_manner(before, after)
}

/// The answers since `before` are such as the listener gives.
pub open spec fn answered<L: Listener>(before: L, after: L) -> bool {
    forall|i: int|
        before.log().len() <= i < after.log().len() ==> before.may_answer(
            (#[trigger] after.log()[i]).0,
            after.log()[i].1,
        )
}

/// Between `before` and `after` the listener was told of `out`, and always wanted to hear more.
pub open spec fn going_on<L: Listener>(before: L, after: L, out: Seq<Report>) -> bool {
    &&& after.log() == before.log() + accepted(out)
    &&& answered(before, after)
    &&& same_manner(before, after)
}

pub proof fn lemma_going_on_start<L: Listener>(before: L)
    ensures
        going_on(before, before, Seq::empty()),
        reported(before, before, Seq::empty()),
{
    assert(before.log() + accepted(Seq::empty()) =~= before.log());
    assert(before.log().subrange(0, before.log().len() as int) =~= before.log());
}

/// One more report is accepted.
pub proof fn lemma_going_on_step<L: Listener>(
    before: L,
    now: L,
    next: L,
    out: Seq<Report>,
    report: Report,
)
    requires
        going_on(before, now, out),
        next.log() == now.log().push((report, true)),
        now.may_answer(report, true),
        same_manner(now, next),
    ensures
        going_on(before, next, out.push(report)),
{
    assert(accepted(out.push(report)) =~= accepted(out).push((report, true)));
    assert(next.log() =~= before.log() + accepted(out.push(report)));
    lemma_answered_step(before, now, next);
}

proof fn lemma_answered_step<L: Listener>(before: L, now: L, next: L)
    requires
        answered(before, now),
        same_manner(before, now),
        before.log().len() <= now.log().len(),
        next.log().len() == now.log().len() + 1,
        next.log() == now.log().push(next.log().last()),
        now.may_answer(next.log().last().0, next.log().last().1),
        same_manner(now, next),
    ensures
        answered(before, next),
        same_manner(before, next),
{
    assert forall|i: int| before.log().len() <= i < next.log().len() implies before.may_answer(
        (#[trigger] next.log()[i]).0,
        next.log()[i].1,
    ) by {
        if i < now.log().len() {
            assert(next.log()[i] == now.log()[i]);
        }
    }
    assert forall|r: Report, a: bool| #[trigger]
        next.may_answer(r, a) == before.may_answer(r, a) by {
        assert(now.may_answer(r, a) == before.may_answer(r, a));
    }
    assert forall|l: Seq<(Report, bool)>, r: Report| #[trigger]
        next.takes(l, r) == before.takes(l, r) by {
        assert(now.takes(l, r) == before.takes(l, r));
    }
}

/// The last report, or one that is refused.
pub proof fn lemma_reported<L: Listener>(
    before: L,
    now: L,
    next: L,
    done: Seq<Report>,
    out: Seq<Report>,
    answer: bool,
)
    requires
        going_on(before, now, done),
        done.len() < out.len(),
        out.subrange(0, done.len() as int) == done,
        next.log() == now.log().push((out[done.len() as int], answer)),
        now.may_answer(out[done.len() as int], answer),
        same_manner(now, next),
        !answer || done.len() + 1 == out.len(),
    ensures
        reported(before, next, out),
{
    lemma_answered_step(before, now, next);
    let n = before.log().len() as int;
    assert(next.log().subrange(0, n) =~= before.log());
    let calls = told(before, next);
    assert(calls.len() == done.len() + 1);
    assert forall|i: int| 0 <= i < calls.len() implies (#[trigger] calls[i]).0 == out[i] by {
        if i < done.len() {
            assert(calls[i] == accepted(done)[i]);
            assert(done[i] == out.subrange(0, done.len() as int)[i]);
        }
    }
    assert forall|i: int| 0 <= i < calls.len() - 1 implies (#[trigger] calls[i]).1 by {
        assert(calls[i] == accepted(done)[i]);
    }
}

/// Tells the listener of the boundary after the first `k` characters of `cs`, having told it of
/// those before.
pub(crate) fn tell<L: Listener>(
    listener: &mut L,
    at: usize,
    props: TokenProperties,
    Ghost(before): Ghost<L>,
    Ghost(cs): Ghost<Seq<CharInfo>>,
    Ghost(k): Ghost<int>,
) -> (more: bool)
    requires
        takes_all(before, word_breaks(cs)),
        going_on(before, *old(listener), reports(cs, k)),
        0 <= k <= cs.len(),
        cs.len() > 0,
        boundary(cs, k),
        report(cs, k) == (at, props),
    ensures
        more ==> going_on(before, *final(listener), reports(cs, k + 1)),
        !more || k == cs.len() ==> reported(before, *final(listener), word_breaks(cs)),
{
    let ghost now = *listener;
    let ghost done = reports(cs, k);
    let ghost out = word_breaks(cs);
    proof {
        lemma_reports_prefix(cs, k, cs.len() as int + 1);
        lemma_reports_prefix(cs, k + 1, cs.len() as int + 1);
        assert(reports(cs, k + 1) == done.push(report(cs, k)));
        assert(out[done.len() as int] == reports(cs, k + 1)[done.len() as int]);
        assert(out.take(done.len() as int) =~= done);
        assert(before.takes(now.log(), out[done.len() as int]));
    }
    let more = listener.hear(at, props);
    proof {
        if more {
            lemma_going_on_step(before, now, *listener, done, report(cs, k));
        }
        if !more || k == cs.len() {
            lemma_reported(before, now, *listener, done, out, more);
        }
    }
    more
}

// ---------------------------------------------------------------------------------------------
// Listeners
// ---------------------------------------------------------------------------------------------

/// A list keeps what it hears, and never refuses.
impl Listener for Vec<Report> {
    open spec fn takes(&self, log: Seq<(Report, bool)>, report: Report) -> bool {
        true
    }

    open spec fn log(&self) -> Seq<(Report, bool)> {
        accepted(self@)
    }

    open spec fn may_answer(&self, report: Report, answer: bool) -> bool {
        answer
    }

    fn hear(&mut self, at: usize, props: TokenProperties) -> (more: bool) {
        self.push((at, props));
        assert(self.log() =~= old(self).log().push(((at, props), true)));
        true
    }
}

/// A function that is called with each boundary and says whether it wants to be called again.
///
/// There is no way to call the function but [`Listener::hear`], which takes the reports of the script
/// one after the other, each once, and none behind a `false`.
pub struct Callback<F> {
    f: F,
    /// The reports that the function is for.
    script: Ghost<Seq<Report>>,
    /// The calls so far, with the answers.
    calls: Ghost<Seq<(Report, bool)>>,
}

/// The function can be called with each of the reports `out`. A caller shows the first alternative.
/// Whoever is given no more than this cannot tell that it is not the second one, and so cannot call
/// the function: all that can be done with it is to make it a [`Callback`] for `out`, which calls it
/// with these reports in this order.
pub open spec fn callable<F: FnMut(usize, TokenProperties) -> bool>(
    f: F,
    out: Seq<Report>,
) -> bool {
    ||| forall|i: int| 0 <= i < out.len() ==> call_requires(f, #[trigger] out[i])
    ||| entrusted(f, out)
}

/// The function can be called with each of the reports `out`; only a [`Callback`] knows it.
pub closed spec fn entrusted<F: FnMut(usize, TokenProperties) -> bool>(
    f: F,
    out: Seq<Report>,
) -> bool {
    forall|i: int| 0 <= i < out.len() ==> call_requires(f, #[trigger] out[i])
}

/// The function `f` was called with the reports `out` in order, each once, up to the first one on
/// which it answered `false`, or to the end. [`Callback::done`] alone can tell.
pub closed spec fn called<F: FnMut(usize, TokenProperties) -> bool>(
    f: F,
    out: Seq<Report>,
) -> bool {
    exists|answers: Seq<bool>| #[trigger] possible_answers(f, out, answers)
}

impl<F: FnMut(usize, TokenProperties) -> bool> Listener for Callback<F> {
    closed spec fn takes(&self, log: Seq<(Report, bool)>, report: Report) -> bool {
        &&& callable(self.f, self.script@)
        &&& log.len() < self.script@.len()
        &&& report == self.script@[log.len() as int]
        &&& forall|i: int| 0 <= i < log.len() ==> (#[trigger] log[i]).1
    }

    closed spec fn log(&self) -> Seq<(Report, bool)> {
        self.calls@
    }

    closed spec fn may_answer(&self, report: Report, answer: bool) -> bool {
        call_ensures(self.f, report, answer)
    }

    fn hear(&mut self, at: usize, props: TokenProperties) -> (more: bool) {
        let more = (self.f)(at, props);
        self.calls = Ghost(self.calls@.push(((at, props), more)));
        more
    }
}

impl<F: FnMut(usize, TokenProperties) -> bool> Callback<F> {
    pub closed spec fn function(&self) -> F {
        self.f
    }

    pub closed spec fn script(&self) -> Seq<Report> {
        self.script@
    }

    /// A function that is to be called with the reports `out`, and has not been called yet.
    pub fn new(f: F, Ghost(out): Ghost<Seq<Report>>) -> (callback: Self)
        requires
            callable(f, out),
        ensures
            callback.function() == f,
            callback.script() == out,
            callback.log().len() == 0,
            takes_all(callback, out),
    {
        let callback = Callback { f, script: Ghost(out), calls: Ghost(Seq::empty()) };
        callback
    }

    /// Gives the function up when all calls have been made. `before`: the callback when it was new.
    pub fn done(self, Ghost(before): Ghost<Self>)
        requires
            before.log().len() == 0,
            reported(before, self, before.script()),
        ensures
            called(before.function(), before.script()),
            exists|answers: Seq<bool>| #[trigger]
                possible_answers(before.function(), before.script(), answers),
    {
        proof {
            lemma_possible_answers(before, self, before.script());
        }
    }
}

/// A callback can be told of nothing but the report of its script whose turn it is, and of nothing
/// more behind a refusal: told of `log`, it has heard as many reports as `log` is long.
pub proof fn law_callbacks_take_turns<F: FnMut(usize, TokenProperties) -> bool>(
    callback: Callback<F>,
    log: Seq<(Report, bool)>,
    report: Report,
)
    requires
        callback.takes(log, report),
    ensures
        log.len() < callback.script().len(),
        report == callback.script()[log.len() as int],
        forall|i: int| 0 <= i < log.len() ==> (#[trigger] log[i]).1,
{
}

/// `answers` could be those of the function `f` to the reports `out`, made one after the other up
/// to the first one on which it answers `false`: `f` may answer so to each of the first reports, all
/// but the last of the answers are `true`, and reports are left over only behind a `false`.
///
/// A function has no log of what it was told, so this alone does not say that `f` was called:
/// [`called`] does.
pub open spec fn possible_answers<F: FnMut(usize, TokenProperties) -> bool>(
    f: F,
    out: Seq<Report>,
    answers: Seq<bool>,
) -> bool {
    &&& answers.len() <= out.len()
    &&& forall|i: int|
        0 <= i < answers.len() ==> call_ensures(f, #[trigger] out[i], answers[i])
    &&& forall|i: int| 0 <= i < answers.len() - 1 ==> #[trigger] answers[i]
    &&& answers.len() < out.len() ==> answers.len() > 0 && !answers.last()
}

/// If a callback was told the reports `out`, there are answers that its function could have given.
pub proof fn lemma_possible_answers<F: FnMut(usize, TokenProperties) -> bool>(
    before: Callback<F>,
    after: Callback<F>,
    out: Seq<Report>,
)
    requires
        before.log().len() == 0,
        reported(before, after, out),
    ensures
        exists|answers: Seq<bool>| #[trigger] possible_answers(before.function(), out, answers),
{
    let calls = told(before, after);
    assert(calls =~= after.log());
    let answers = Seq::new(calls.len(), |i: int| calls[i].1);
    assert forall|i: int| 0 <= i < answers.len() implies call_ensures(
        before.function(),
        #[trigger] out[i],
        answers[i],
    ) by {
        assert(calls[i].0 == out[i]);
        assert(before.may_answer(after.log()[i].0, after.log()[i].1));
    }
    assert forall|i: int| 0 <= i < answers.len() - 1 implies #[trigger] answers[i] by {
        assert(calls[i].1);
    }
    assert(possible_answers(before.function(), out, answers));
}

} // verus!
