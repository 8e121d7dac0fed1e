//! The decisions of the command-line commands: the exit code of a failed
//! run, the progress of a batch, and the URL read from standard input.

use vstd::prelude::*;

use crate::error::{exit_code_of, opt_error_view, FetchError, FetchErrorView};
use crate::text::{push_decimal, push_str, trim, trim_str};

verus! {

/// The exit code of a failed run whose error chain (the error, then its
/// causes) holds these fetch errors, `None` standing for a cause that is
/// not one: the code of the first fetch error, 1 when there is none.
pub open spec fn chain_exit_code(causes: Seq<Option<FetchErrorView>>) -> i32
    decreases causes.len(),
{
    if causes.len() == 0 {
        1
    } else {
        match causes[0] {
            Some(e) => exit_code_of(e),
            None => chain_exit_code(causes.drop_first()),
        }
    }
}

/// Get the exit code from an error chain: the error and its causes, in
/// order, each given as the fetch error it is, if it is one.
pub fn get_exit_code(causes: &[Option<FetchError>]) -> (code: i32)
    ensures
        code == chain_exit_code(causes@.map_values(|c: Option<FetchError>| opt_error_view(c))),
{
    let ghost views = causes@.map_values(|c: Option<FetchError>| opt_error_view(c));
    let mut i: usize = 0;
    assert(views.subrange(0, views.len() as int) =~= views);
    while i < causes.len()
        invariant
            i <= causes@.len(),
            views == causes@.map_values(|c: Option<FetchError>| opt_error_view(c)),
            chain_exit_code(views) == chain_exit_code(views.subrange(i as int, views.len() as int)),
        decreases causes@.len() - i,
    {
        let ghost rest = views.subrange(i as int, views.len() as int);
        assert(rest[0] == opt_error_view(causes@[i as int]));
        if let Some(fetch_error) = &causes[i] {
            return fetch_error.exit_code();
        }
        assert(rest.drop_first() =~= views.subrange(i + 1, views.len() as int));
        i = i + 1;
    }
    assert(views.subrange(i as int, views.len() as int) =~= Seq::<Option<FetchErrorView>>::empty());
    1
}

/// The exit code of a run is one of 1 to 5.
pub proof fn lemma_chain_exit_code_range(causes: Seq<Option<FetchErrorView>>)
    ensures
        1 <= chain_exit_code(causes) <= 5,
    decreases causes.len(),
{
    if causes.len() > 0 && causes[0] is None {
        lemma_chain_exit_code_range(causes.drop_first());
    }
}

/// The outermost fetch error decides the exit code: causes past it do not
/// matter.
pub proof fn lemma_first_fetch_error_decides(
    outer: Seq<Option<FetchErrorView>>,
    e: FetchErrorView,
    inner: Seq<Option<FetchErrorView>>,
)
    requires
        forall|i: int| 0 <= i < outer.len() ==> outer[i] is None,
    ensures
        chain_exit_code(outer + seq![Some(e)] + inner) == exit_code_of(e),
    decreases outer.len(),
{
    if outer.len() > 0 {
        let whole = outer + seq![Some(e)] + inner;
        assert(whole.drop_first() =~= outer.drop_first() + seq![Some(e)] + inner);
        lemma_first_fetch_error_decides(outer.drop_first(), e, inner);
    } else {
        assert((outer + seq![Some(e)] + inner)[0] == Some(e));
    }
}

// ---------------------------------------------------------------------------
// Batch progress
// ---------------------------------------------------------------------------

/// The progress of a batch over `total` URLs whose results are taken in
/// order.
#[derive(Debug, Clone, Copy)]
pub struct BatchProgress {
    pub total: usize,
    pub success_count: usize,
    pub failure_count: usize,
    /// No page has been written to standard output yet.
    pub first: bool,
    pub has_failure: bool,
}

impl BatchProgress {
    /// The well-formedness of a progress record: no more results than URLs,
    /// and a failure recorded exactly when one was counted.
    pub open spec fn wf(self) -> bool {
        &&& self.success_count + self.failure_count <= self.total
        &&& self.has_failure == (self.failure_count > 0)
    }

    /// The number of results taken so far.
    pub open spec fn processed(self) -> nat {
        (self.success_count + self.failure_count) as nat
    }

    /// Before the first result.
    pub fn new(total: usize) -> (p: BatchProgress)
        ensures
            p.wf(),
            p.total == total,
            p.success_count == 0,
            p.failure_count == 0,
            p.first,
    {
        BatchProgress { total, success_count: 0, failure_count: 0, first: true, has_failure: false }
    }

    /// Records a page that was fetched.  When pages go to standard output,
    /// the answer says whether a separator goes before this one (every page
    /// but the first); pages written to a directory need none.
    pub fn record_success(&mut self, to_dir: bool) -> (separator: bool)
        requires
            old(self).wf(),
            old(self).processed() < old(self).total,
        ensures
            final(self).wf(),
            final(self).total == old(self).total,
            final(self).success_count == old(self).success_count + 1,
            final(self).failure_count == old(self).failure_count,
            separator == (!to_dir && !old(self).first),
            final(self).first == (old(self).first && to_dir),
    {
        self.success_count = self.success_count + 1;
        if to_dir {
            false
        } else {
            let separator = !self.first;
            self.first = false;
            separator
        }
    }

    /// Records a URL that failed.
    pub fn record_failure(&mut self)
        requires
            old(self).wf(),
            old(self).processed() < old(self).total,
        ensures
            final(self).wf(),
            final(self).total == old(self).total,
            final(self).success_count == old(self).success_count,
            final(self).failure_count == old(self).failure_count + 1,
            final(self).first == old(self).first,
    {
        self.failure_count = self.failure_count + 1;
        self.has_failure = true;
    }

    /// Whether the batch stops taking results: after a failure, unless
    /// asked to continue on errors.
    pub fn should_stop(&self, continue_on_error: bool) -> (b: bool)
        ensures
            b == (self.has_failure && !continue_on_error),
    {
        self.has_failure && !continue_on_error
    }

    /// The message the batch fails with: some URL failed and the batch was
    /// not asked to continue on errors.
    pub fn failure_message(&self, continue_on_error: bool) -> (m: Option<String>)
        ensures
            match m {
                Some(s) => self.failure_count > 0 && !continue_on_error && s@
                    == "Batch processing failed: "@ + crate::text::decimal(
                    self.failure_count as nat,
                ) + " URLs failed"@,
                None => !(self.failure_count > 0 && !continue_on_error),
            },
    {
        if self.failure_count > 0 && !continue_on_error {
            let mut s = String::new();
            push_str(&mut s, "Batch processing failed: ");
            push_decimal(&mut s, self.failure_count as u64);
            push_str(&mut s, " URLs failed");
            Some(s)
        } else {
            None
        }
    }
}

/// A batch that stops after a failure reports that failure: stopping and
/// failing go together.
pub proof fn lemma_stop_means_failure(p: BatchProgress, continue_on_error: bool)
    requires
        p.wf(),
    ensures
        (p.has_failure && !continue_on_error) <==> (p.failure_count > 0 && !continue_on_error),
{
}

// ---------------------------------------------------------------------------
// Standard input
// ---------------------------------------------------------------------------

/// The URL given on a line of standard input: the trimmed line, `None` when
/// it is blank.
pub fn url_from_stdin_line(line: &str) -> (url: Option<String>)
    ensures
        match url {
            Some(u) => u@ == trim(line@) && u@.len() > 0,
            None => trim(line@).len() == 0,
        },
{
    let t = trim_str(line);
    let v = crate::text::chars_of(t.as_str());
    if v.len() == 0 {
        None
    } else {
        Some(t)
    }
}

} // verus!
