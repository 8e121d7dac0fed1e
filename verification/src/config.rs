//! Configuration: defaults, command-line overrides, and the retry policy
//! with its exponential backoff.

use vstd::prelude::*;

verus! {

/// Default configuration.
#[derive(Debug, Clone)]
pub struct Config {
    /// Default timeout in seconds.
    pub timeout: u64,
    /// Default number of retries.
    pub retries: u32,
    /// Wait for JavaScript rendering by default.
    pub wait_render: bool,
    /// Default output directory for batch mode.
    pub output_dir: Option<String>,
    /// Concurrent requests for batch mode (0 = unlimited).
    pub concurrency: Option<usize>,
    /// Default user agent.
    pub user_agent: Option<String>,
}

/// The defaults: 30 s timeout, 3 retries, no waiting for rendering, and
/// nothing else set.
pub open spec fn is_default_config(c: Config) -> bool {
    &&& c.timeout == 30
    &&& c.retries == 3
    &&& !c.wait_render
    &&& c.output_dir is None
    &&& c.concurrency is None
    &&& c.user_agent is None
}

/// Two configurations with the same settings.
pub open spec fn same_config(a: Config, b: Config) -> bool {
    &&& a.timeout == b.timeout
    &&& a.retries == b.retries
    &&& a.wait_render == b.wait_render
    &&& a.output_dir.deep_view() == b.output_dir.deep_view()
    &&& a.concurrency == b.concurrency
    &&& a.user_agent.deep_view() == b.user_agent.deep_view()
}

/// `c` with the settings given on the command line in place of its own.
pub open spec fn overridden(
    c: Config,
    timeout: Option<u64>,
    retries: Option<u32>,
    wait_render: Option<bool>,
    output_dir: Option<Seq<char>>,
    r: Config,
) -> bool {
    &&& r.timeout == match timeout {
        Some(t) => t,
        None => c.timeout,
    }
    &&& r.retries == match retries {
        Some(n) => n,
        None => c.retries,
    }
    &&& r.wait_render == match wait_render {
        Some(w) => w,
        None => c.wait_render,
    }
    &&& r.output_dir.deep_view() == match output_dir {
        Some(d) => Some(d),
        None => c.output_dir.deep_view(),
    }
    &&& r.concurrency == c.concurrency
    &&& r.user_agent.deep_view() == c.user_agent.deep_view()
}

fn clone_opt_string(s: &Option<String>) -> (r: Option<String>)
    ensures
        r.deep_view() == s.deep_view(),
{
    match s {
        Some(v) => Some(v.clone()),
        None => None,
    }
}

impl Default for Config {
    fn default() -> (c: Self)
        ensures
            is_default_config(c),
    {
        Config {
            timeout: 30,
            retries: 3,
            wait_render: false,
            output_dir: None,
            concurrency: None,
            user_agent: None,
        }
    }
}

impl Config {
    /// The configuration read from a config file, or the defaults when none
    /// could be read.
    pub fn load(found: Option<Config>) -> (c: Config)
        ensures
            match found {
                Some(f) => same_config(c, f),
                None => is_default_config(c),
            },
    {
        match found {
            Some(f) => f,
            None => Config::default(),
        }
    }

    /// Create a merged config with CLI overrides: each setting given on the
    /// command line replaces the configured one.
    pub fn with_cli_overrides(
        &self,
        timeout: Option<u64>,
        retries: Option<u32>,
        wait_render: Option<bool>,
        output_dir: Option<String>,
    ) -> (r: Config)
        ensures
            overridden(*self, timeout, retries, wait_render, output_dir.deep_view(), r),
    {
        Config {
            timeout: match timeout {
                Some(t) => t,
                None => self.timeout,
            },
            retries: match retries {
                Some(n) => n,
                None => self.retries,
            },
            wait_render: match wait_render {
                Some(w) => w,
                None => self.wait_render,
            },
            output_dir: match output_dir {
                Some(d) => Some(d),
                None => clone_opt_string(&self.output_dir),
            },
            concurrency: self.concurrency,
            user_agent: clone_opt_string(&self.user_agent),
        }
    }
}

/// Overriding nothing keeps every setting.
pub proof fn lemma_no_override_is_identity(c: Config, r: Config)
    requires
        overridden(c, None, None, None, None, r),
    ensures
        same_config(r, c),
{
}

/// Overriding twice is overriding once with the later settings where they
/// are given, and the earlier ones elsewhere.
pub proof fn lemma_overrides_compose(
    c: Config,
    t1: Option<u64>,
    n1: Option<u32>,
    w1: Option<bool>,
    d1: Option<Seq<char>>,
    r1: Config,
    t2: Option<u64>,
    n2: Option<u32>,
    w2: Option<bool>,
    d2: Option<Seq<char>>,
    r2: Config,
)
    requires
        overridden(c, t1, n1, w1, d1, r1),
        overridden(r1, t2, n2, w2, d2, r2),
    ensures
        overridden(
            c,
            if t2 is Some {
                t2
            } else {
                t1
            },
            if n2 is Some {
                n2
            } else {
                n1
            },
            if w2 is Some {
                w2
            } else {
                w1
            },
            if d2 is Some {
                d2
            } else {
                d1
            },
            r2,
        ),
{
}

// ---------------------------------------------------------------------------
// Retry policy
// ---------------------------------------------------------------------------

/// Retry configuration with exponential backoff, durations in milliseconds.
#[derive(Debug, Clone, Copy)]
pub struct RetryConfig {
    /// Maximum number of retry attempts.
    pub max_retries: u32,
    /// Initial backoff duration, in milliseconds.
    pub initial_backoff_ms: u64,
    /// Maximum backoff duration, in milliseconds.
    pub max_backoff_ms: u64,
    /// Factor by which the backoff grows from one attempt to the next.
    pub backoff_multiplier: u64,
}

/// The defaults: 3 retries, 500 ms doubling up to 30 s.
pub open spec fn is_default_retry_config(c: RetryConfig) -> bool {
    &&& c.max_retries == 3
    &&& c.initial_backoff_ms == 500
    &&& c.max_backoff_ms == 30_000
    &&& c.backoff_multiplier == 2
}

/// `b` to the power `e`.
pub open spec fn power(b: nat, e: nat) -> nat
    decreases e,
{
    if e == 0 {
        1
    } else {
        b * power(b, (e - 1) as nat)
    }
}

/// The smaller of two numbers.
pub open spec fn min_nat(a: nat, b: nat) -> nat {
    if a <= b {
        a
    } else {
        b
    }
}

/// The wait before retry number `attempt + 1` (attempts counted from 0):
/// the initial backoff times the multiplier to the power `attempt`, capped
/// at the maximum backoff.
pub open spec fn backoff(c: RetryConfig, attempt: nat) -> nat {
    min_nat(
        (c.initial_backoff_ms as nat) * power(c.backoff_multiplier as nat, attempt),
        c.max_backoff_ms as nat,
    )
}

/// One growth step of the backoff: times the multiplier, capped.
pub open spec fn backoff_step(c: RetryConfig, ms: nat) -> nat {
    min_nat(ms * (c.backoff_multiplier as nat), c.max_backoff_ms as nat)
}

impl Default for RetryConfig {
    fn default() -> (c: Self)
        ensures
            is_default_retry_config(c),
    {
        RetryConfig {
            max_retries: 3,
            initial_backoff_ms: 500,
            max_backoff_ms: 30_000,
            backoff_multiplier: 2,
        }
    }
}

/// Each backoff is the previous one grown by one step.
pub proof fn lemma_backoff_step(c: RetryConfig, n: nat)
    ensures
        backoff(c, n + 1) == backoff_step(c, backoff(c, n)),
{
    let m = c.backoff_multiplier as nat;
    let cap = c.max_backoff_ms as nat;
    let x = (c.initial_backoff_ms as nat) * power(m, n);
    assert(power(m, n + 1) == m * power(m, n));
    assert((c.initial_backoff_ms as nat) * power(m, n + 1) == x * m) by (nonlinear_arith)
        requires
            power(m, n + 1) == m * power(m, n),
            x == (c.initial_backoff_ms as nat) * power(m, n),
    ;
    if x > cap {
        if m >= 1 {
            assert(x * m >= x) by (nonlinear_arith)
                requires
                    m >= 1,
            ;
            assert(cap * m >= cap) by (nonlinear_arith)
                requires
                    m >= 1,
            ;
        } else {
            assert(x * m == 0 && cap * m == 0) by (nonlinear_arith)
                requires
                    m == 0,
            ;
        }
    }
}

/// Once the backoff stops changing it stays where it is.
proof fn lemma_backoff_fixed(c: RetryConfig, i: nat, n: nat)
    requires
        i <= n,
        backoff(c, i + 1) == backoff(c, i),
    ensures
        backoff(c, n) == backoff(c, i),
    decreases n - i,
{
    if i < n {
        lemma_backoff_fixed(c, i, (n - 1) as nat);
        lemma_backoff_step(c, (n - 1) as nat);
        lemma_backoff_step(c, i);
    }
}

/// The first wait is the initial backoff, or the maximum backoff when the
/// initial one exceeds it.
pub proof fn lemma_first_backoff(c: RetryConfig)
    ensures
        backoff(c, 0) == if c.initial_backoff_ms <= c.max_backoff_ms {
            c.initial_backoff_ms as nat
        } else {
            c.max_backoff_ms as nat
        },
{
    assert(power(c.backoff_multiplier as nat, 0) == 1);
}

/// Never more than the maximum backoff.
pub proof fn lemma_backoff_capped(c: RetryConfig, n: nat)
    ensures
        backoff(c, n) <= c.max_backoff_ms,
{
}

/// With a multiplier of at least 1 the backoff never shrinks from one
/// attempt to the next.
pub proof fn lemma_backoff_monotone(c: RetryConfig, i: nat, j: nat)
    requires
        c.backoff_multiplier >= 1,
        i <= j,
    ensures
        backoff(c, i) <= backoff(c, j),
    decreases j - i,
{
    if i < j {
        lemma_backoff_monotone(c, i, (j - 1) as nat);
        lemma_backoff_step(c, (j - 1) as nat);
        let b = backoff(c, (j - 1) as nat);
        assert(b * (c.backoff_multiplier as nat) >= b) by (nonlinear_arith)
            requires
                c.backoff_multiplier >= 1,
        ;
    }
}

/// The default policy waits 500 ms, then doubles the wait each time up to
/// 30 s.
pub proof fn lemma_default_backoff(c: RetryConfig, n: nat)
    requires
        is_default_retry_config(c),
    ensures
        backoff(c, 0) == 500,
        backoff(c, n + 1) == min_nat(2 * backoff(c, n), 30_000),
{
    lemma_backoff_step(c, n);
    assert(power(2, 0) == 1);
}

impl RetryConfig {
    /// The retry policy of a command: `retries` retries, none with
    /// `no_retry`, and the default backoff.
    pub fn for_flags(no_retry: bool, retries: u32) -> (c: RetryConfig)
        ensures
            c.max_retries == if no_retry {
                0
            } else {
                retries
            },
            c.initial_backoff_ms == 500,
            c.max_backoff_ms == 30_000,
            c.backoff_multiplier == 2,
    {
        let d = RetryConfig::default();
        RetryConfig { max_retries: if no_retry {
            0
        } else {
            retries
        }, ..d }
    }

    /// Calculate the backoff, in milliseconds, for a given attempt
    /// (0-indexed).
    pub fn backoff_for_attempt(&self, attempt: u32) -> (ms: u64)
        ensures
            ms == backoff(*self, attempt as nat),
    {
        let m = self.backoff_multiplier;
        let cap = self.max_backoff_ms;
        let mut cur = if self.initial_backoff_ms <= cap {
            self.initial_backoff_ms
        } else {
            cap
        };
        assert(power(m as nat, 0) == 1);
        let mut i: u32 = 0;
        let mut settled = false;
        while i < attempt && !settled
            invariant
                i <= attempt,
                m == self.backoff_multiplier,
                cap == self.max_backoff_ms,
                cur == backoff(*self, i as nat),
                settled ==> backoff(*self, (i + 1) as nat) == backoff(*self, i as nat),
            decreases attempt - i + if settled {
                0int
            } else {
                1int
            },
        {
            let next = match cur.checked_mul(m) {
                Some(p) => if p <= cap {
                    p
                } else {
                    cap
                },
                None => cap,
            };
            proof {
                lemma_backoff_step(*self, i as nat);
            }
            if next == cur {
                settled = true;
            } else {
                cur = next;
                i = i + 1;
            }
        }
        proof {
            if settled {
                lemma_backoff_fixed(*self, i as nat, attempt as nat);
            }
        }
        cur
    }
}

} // verus!
