//! The provider failover pool.
//!
//! A pool owns one entry per configured backend, each with its own key pool,
//! and drives the two-level retry policy: a rate-limited key is followed by
//! the next key of the same provider, any other failure abandons the provider,
//! and the first success wins. The network call itself happens outside this
//! crate; here the policy is a function of the sequence of classified
//! attempt outcomes, one per adapter invocation, in the order the attempts
//! are made.

use vstd::prelude::*;

use crate::messages::{llm_eq, LlmResponse, ProviderError};
use crate::rotation::KeyPool;
use crate::text::str_eq;

verus! {

/// The closed set of supported backends.
#[derive(Clone, Copy, PartialEq, Eq, Structural, Debug)]
pub enum ProviderKind {
    OpenAi,
    Gemini,
    Groq,
    Mistral,
}

impl ProviderKind {
    pub open spec fn spec_name(self) -> Seq<char> {
        match self {
            ProviderKind::OpenAi => "openai"@,
            ProviderKind::Gemini => "gemini"@,
            ProviderKind::Groq => "groq"@,
            ProviderKind::Mistral => "mistral"@,
        }
    }

    pub fn name(&self) -> (r: &'static str)
        ensures
            r@ == self.spec_name(),
    {
        match self {
            ProviderKind::OpenAi => "openai",
            ProviderKind::Gemini => "gemini",
            ProviderKind::Groq => "groq",
            ProviderKind::Mistral => "mistral",
        }
    }
}

/// One configured backend: its identity and its rotating key pool.
pub struct ProviderEntry {
    pub kind: ProviderKind,
    pub keys: KeyPool,
}

/// What one adapter invocation came to, as classified by the adapter.
#[derive(Clone, Debug)]
pub enum AttemptOutcome {
    Success(LlmResponse),
    Failure(ProviderError),
}

/// The failover pool: providers in configuration order plus the index of the
/// provider that is tried first.
pub struct ProviderPool {
    providers: Vec<ProviderEntry>,
    default_idx: usize,
}

// ---------------------------------------------------------------------------
// The policy as spec functions over the sequence of attempt outcomes.
// ---------------------------------------------------------------------------

/// How many outcomes one provider consumes when given `tries` attempts,
/// reading outcomes from position `at`: rate limits keep it drawing keys,
/// anything else stops it.
pub open spec fn provider_used(tries: nat, outcomes: Seq<AttemptOutcome>, at: int) -> nat
    decreases tries,
{
    if tries == 0 || at < 0 || at >= outcomes.len() {
        0
    } else {
        match outcomes[at] {
            AttemptOutcome::Success(_) => 1,
            AttemptOutcome::Failure(e) => if e is RateLimited {
                (1 + provider_used((tries - 1) as nat, outcomes, at + 1)) as nat
            } else {
                1
            },
        }
    }
}

/// Whether one provider, given `tries` attempts from position `at`, reaches
/// a success before leaving.
pub open spec fn provider_wins(tries: nat, outcomes: Seq<AttemptOutcome>, at: int) -> bool
    decreases tries,
{
    tries > 0 && 0 <= at < outcomes.len() && match outcomes[at] {
        AttemptOutcome::Success(_) => true,
        AttemptOutcome::Failure(e) => e is RateLimited && provider_wins(
            (tries - 1) as nat,
            outcomes,
            at + 1,
        ),
    }
}

/// Outcomes consumed by the whole pool, visiting the providers whose key
/// counts stand in `counts[ci..]`, reading outcomes from position `at`.
pub open spec fn pool_used(counts: Seq<nat>, ci: int, outcomes: Seq<AttemptOutcome>, at: int) -> nat
    decreases counts.len() - ci,
{
    if ci < 0 || ci >= counts.len() {
        0
    } else {
        let u = provider_used(counts[ci], outcomes, at);
        if provider_wins(counts[ci], outcomes, at) {
            u
        } else {
            (u + pool_used(counts, ci + 1, outcomes, at + u)) as nat
        }
    }
}

/// The position in `counts` of the provider that succeeds, if any does.
pub open spec fn pool_winner(counts: Seq<nat>, ci: int, outcomes: Seq<AttemptOutcome>, at: int) -> Option<
    int,
>
    decreases counts.len() - ci,
{
    if ci < 0 || ci >= counts.len() {
        None
    } else if provider_wins(counts[ci], outcomes, at) {
        Some(ci)
    } else {
        pool_winner(counts, ci + 1, outcomes, at + provider_used(counts[ci], outcomes, at))
    }
}

/// Total of `counts[ci..]`.
pub open spec fn sum_counts(counts: Seq<nat>, ci: int) -> nat
    decreases counts.len() - ci,
{
    if ci < 0 || ci >= counts.len() {
        0
    } else {
        counts[ci] + sum_counts(counts, ci + 1)
    }
}

/// The order in which `n` providers are visited when `d` is the default:
/// the default first, then the rest in configuration order.
pub open spec fn visit_order(n: int, d: int) -> Seq<int> {
    seq![d] + Seq::new(if n <= 1 { 0 } else { (n - 1) as nat }, |k: int| if k < d {
        k
    } else {
        k + 1
    })
}

/// First provider at or after `start` whose name is `name`.
pub open spec fn find_provider(providers: Seq<ProviderEntry>, start: int, name: Seq<char>) -> Option<
    int,
>
    decreases providers.len() - start,
{
    if start < 0 || start >= providers.len() {
        None
    } else if providers[start].kind.spec_name() == name {
        Some(start)
    } else {
        find_provider(providers, start + 1, name)
    }
}

// ---------------------------------------------------------------------------
// Lemmas about the policy.
// ---------------------------------------------------------------------------

/// A provider given `tries` attempts consumes at most `tries` outcomes.
pub proof fn lemma_provider_used_bound(tries: nat, outcomes: Seq<AttemptOutcome>, at: int)
    ensures
        provider_used(tries, outcomes, at) <= tries,
    decreases tries,
{
    if tries > 0 && 0 <= at < outcomes.len() {
        if outcomes[at] matches AttemptOutcome::Failure(e) && e is RateLimited {
            lemma_provider_used_bound((tries - 1) as nat, outcomes, at + 1);
        }
    }
}

/// The whole pool consumes at most the total key count: no request ever
/// makes more adapter calls than there are keys.
pub proof fn lemma_pool_used_bound(counts: Seq<nat>, ci: int, outcomes: Seq<AttemptOutcome>, at: int)
    ensures
        pool_used(counts, ci, outcomes, at) <= sum_counts(counts, ci),
    decreases counts.len() - ci,
{
    if 0 <= ci < counts.len() {
        lemma_provider_used_bound(counts[ci], outcomes, at);
        lemma_pool_used_bound(counts, ci + 1, outcomes, at + provider_used(counts[ci], outcomes, at));
    }
}

/// A winning provider's position lies within the counts it was drawn from.
pub proof fn lemma_pool_winner_range(
    counts: Seq<nat>,
    ci: int,
    outcomes: Seq<AttemptOutcome>,
    at: int,
)
    ensures
        match pool_winner(counts, ci, outcomes, at) {
            Some(j) => ci <= j < counts.len(),
            None => true,
        },
    decreases counts.len() - ci,
{
    if 0 <= ci < counts.len() && !provider_wins(counts[ci], outcomes, at) {
        lemma_pool_winner_range(
            counts,
            ci + 1,
            outcomes,
            at + provider_used(counts[ci], outcomes, at),
        );
    }
}

/// A provider only wins by reaching a success outcome.
proof fn lemma_provider_wins_success(tries: nat, outcomes: Seq<AttemptOutcome>, at: int)
    requires
        provider_wins(tries, outcomes, at),
    ensures
        exists|i: int| at <= i < outcomes.len() && (#[trigger] outcomes[i]) is Success,
    decreases tries,
{
    if outcomes[at] matches AttemptOutcome::Failure(e) {
        lemma_provider_wins_success((tries - 1) as nat, outcomes, at + 1);
    }
}

/// When every attempt fails, no provider wins: the pool reports the terminal
/// error, whatever the mix of rate limits and other failures.
pub proof fn lemma_all_failures_no_winner(
    counts: Seq<nat>,
    ci: int,
    outcomes: Seq<AttemptOutcome>,
    at: int,
)
    requires
        forall|i: int| 0 <= i < outcomes.len() ==> !((#[trigger] outcomes[i]) is Success),
    ensures
        pool_winner(counts, ci, outcomes, at) is None,
    decreases counts.len() - ci,
{
    if 0 <= ci < counts.len() {
        if provider_wins(counts[ci], outcomes, at) {
            lemma_provider_wins_success(counts[ci], outcomes, at);
        }
        lemma_all_failures_no_winner(
            counts,
            ci + 1,
            outcomes,
            at + provider_used(counts[ci], outcomes, at),
        );
    }
}

// ---------------------------------------------------------------------------
// The pool itself.
// ---------------------------------------------------------------------------

impl ProviderPool {
    pub closed spec fn spec_providers(self) -> Seq<ProviderEntry> {
        self.providers@
    }

    pub closed spec fn spec_default(self) -> int {
        self.default_idx as int
    }

    /// Every entry has at least one key, and the default index is in range.
    pub open spec fn wf(self) -> bool {
        &&& if self.spec_providers().len() == 0 {
            self.spec_default() == 0
        } else {
            0 <= self.spec_default() < self.spec_providers().len()
        }
        &&& forall|i: int|
            0 <= i < self.spec_providers().len() ==> (#[trigger] self.spec_providers()[i]).keys.wf()
                && self.spec_providers()[i].keys.spec_keys().len() > 0
    }

    pub open spec fn spec_kinds(self) -> Seq<ProviderKind> {
        Seq::new(self.spec_providers().len(), |i: int| self.spec_providers()[i].kind)
    }

    pub open spec fn spec_visit_order(self) -> Seq<int> {
        visit_order(self.spec_providers().len() as int, self.spec_default())
    }

    /// Key counts per provider, in visit order.
    pub open spec fn spec_ordered_counts(self) -> Seq<nat> {
        if self.spec_providers().len() == 0 {
            Seq::empty()
        } else {
            Seq::new(
                self.spec_visit_order().len(),
                |j: int| self.spec_providers()[self.spec_visit_order()[j]].keys.spec_keys().len(),
            )
        }
    }

    pub open spec fn spec_total_keys(self) -> nat {
        sum_counts(self.spec_ordered_counts(), 0)
    }

    /// The same providers with the same keys and the same default; only the
    /// rotation cursors may differ.
    pub open spec fn same_config(self, other: ProviderPool) -> bool {
        &&& self.spec_providers().len() == other.spec_providers().len()
        &&& self.spec_default() == other.spec_default()
        &&& forall|i: int|
            0 <= i < self.spec_providers().len() ==> (#[trigger] self.spec_providers()[i]).kind
                == other.spec_providers()[i].kind && self.spec_providers()[i].keys.spec_keys()
                == other.spec_providers()[i].keys.spec_keys()
    }

    /// What `chat` promises about its result, given the pool it started from
    /// and the outcomes the adapters would deliver: the policy's verdict.
    pub open spec fn chat_verdict(
        self,
        outcomes: Seq<AttemptOutcome>,
        r: Result<(LlmResponse, String), ProviderError>,
        used: int,
        at: int,
    ) -> bool {
        let counts = self.spec_ordered_counts();
        if self.spec_providers().len() == 0 {
            r matches Err(e) && e is NoKeysConfigured && used == 0
        } else {
            used == pool_used(counts, 0, outcomes, at) && match pool_winner(counts, 0, outcomes, at) {
                Some(j) => {
                    let widx = self.spec_visit_order()[j];
                    r matches Ok(p) && (outcomes[at + used - 1] matches AttemptOutcome::Success(
                        resp,
                    ) && llm_eq(p.0, resp) && p.1@ == self.spec_providers()[widx].kind.spec_name())
                },
                None => r matches Err(e) && (e matches ProviderError::RequestError(m) && m@
                    == "All providers failed"@),
            }
        }
    }

    /// Build the pool from the configured key lists. A backend with no keys
    /// gets no entry; the named default selects the entry tried first, and an
    /// unknown name falls back to the first entry.
    pub fn new(
        openai_keys: Vec<String>,
        gemini_keys: Vec<String>,
        groq_keys: Vec<String>,
        mistral_keys: Vec<String>,
        default_provider: &str,
    ) -> (pool: ProviderPool)
        ensures
            pool.wf(),
            pool.spec_kinds() == configured_kinds(
                openai_keys@.len() > 0,
                gemini_keys@.len() > 0,
                groq_keys@.len() > 0,
                mistral_keys@.len() > 0,
            ),
            forall|i: int|
                0 <= i < pool.spec_providers().len() ==> {
                    let e = #[trigger] pool.spec_providers()[i];
                    &&& e.keys.spec_cursor() == 0
                    &&& e.keys.spec_keys() == match e.kind {
                        ProviderKind::OpenAi => openai_keys@.map_values(|k: String| k@),
                        ProviderKind::Gemini => gemini_keys@.map_values(|k: String| k@),
                        ProviderKind::Groq => groq_keys@.map_values(|k: String| k@),
                        ProviderKind::Mistral => mistral_keys@.map_values(|k: String| k@),
                    }
                },
            pool.spec_default() == match find_provider(pool.spec_providers(), 0, default_provider@) {
                Some(i) => i,
                None => 0,
            },
    {
        let mut providers: Vec<ProviderEntry> = Vec::new();

        if openai_keys.len() > 0 {
            providers.push(ProviderEntry { kind: ProviderKind::OpenAi, keys: KeyPool::new(openai_keys) });
        }
        if gemini_keys.len() > 0 {
            providers.push(ProviderEntry { kind: ProviderKind::Gemini, keys: KeyPool::new(gemini_keys) });
        }
        if groq_keys.len() > 0 {
            providers.push(ProviderEntry { kind: ProviderKind::Groq, keys: KeyPool::new(groq_keys) });
        }
        if mistral_keys.len() > 0 {
            providers.push(ProviderEntry { kind: ProviderKind::Mistral, keys: KeyPool::new(mistral_keys) });
        }

        let default_idx = match find_provider_exec(&providers, 0, default_provider) {
            Some(i) => i,
            None => 0,
        };

        let pool = ProviderPool { providers, default_idx };
        proof {
            assert(pool.spec_kinds() =~= configured_kinds(
                openai_keys@.len() > 0,
                gemini_keys@.len() > 0,
                groq_keys@.len() > 0,
                mistral_keys@.len() > 0,
            ));
            if pool.spec_providers().len() > 0 {
                lemma_find_provider_in_range(pool.spec_providers(), 0, default_provider@);
            }
        }
        pool
    }

    pub fn provider_count(&self) -> (n: usize)
        ensures
            n == self.spec_providers().len(),
    {
        self.providers.len()
    }

    pub fn kind_at(&self, i: usize) -> (k: ProviderKind)
        requires
            i < self.spec_providers().len(),
        ensures
            k == self.spec_providers()[i as int].kind,
    {
        self.providers[i].kind
    }

    pub fn key_count_at(&self, i: usize) -> (n: usize)
        requires
            i < self.spec_providers().len(),
        ensures
            n == self.spec_providers()[i as int].keys.spec_keys().len(),
    {
        self.providers[i].keys.len()
    }

    /// Draw the next key of provider `i`, rotating its cursor.
    pub fn draw_key(&mut self, i: usize) -> (r: Option<String>)
        requires
            old(self).wf(),
            i < old(self).spec_providers().len(),
        ensures
            final(self).wf(),
            old(self).same_config(*final(self)),
            r matches Some(k) && k@ == old(self).spec_providers()[i as int].keys.spec_keys()[old(
                self,
            ).spec_providers()[i as int].keys.spec_cursor()],
    {
        let entry = &mut self.providers[i];
        entry.keys.next_key()
    }

    /// The order in which providers are visited: the default first, then the
    /// rest in configuration order.
    pub fn provider_order(&self) -> (r: Vec<usize>)
        requires
            self.wf(),
        ensures
            r@.len() == self.spec_visit_order().len(),
            forall|j: int| 0 <= j < r@.len() ==> r@[j] as int == self.spec_visit_order()[j],
            self.spec_providers().len() > 0 ==> forall|j: int|
                0 <= j < r@.len() ==> (#[trigger] r@[j]) < self.spec_providers().len(),
    {
        let n = self.providers.len();
        let d = self.default_idx;
        let mut r: Vec<usize> = Vec::new();
        r.push(d);
        let mut i: usize = 0;
        while i < n
            invariant
                d == self.spec_default(),
                n == self.spec_providers().len(),
                n > 0 ==> d < n,
                i <= n,
                r@.len() == 1 + if i > d {
                    i - 1
                } else {
                    i as int
                },
                r@[0] == d,
                forall|j: int| 0 <= j < r@.len() ==> r@[j] as int == self.spec_visit_order()[j],
                forall|j: int| 0 <= j < r@.len() ==> (#[trigger] r@[j]) <= n,
                n > 0 ==> forall|j: int| 0 <= j < r@.len() ==> (#[trigger] r@[j]) < n,
            decreases n - i,
        {
            if i != d {
                r.push(i);
            }
            i += 1;
        }
        r
    }

    /// The names of the providers that have at least one key.
    pub fn available_providers(&self) -> (r: Vec<&'static str>)
        requires
            self.wf(),
        ensures
            r@.len() == self.spec_providers().len(),
            forall|i: int|
                0 <= i < r@.len() ==> (#[trigger] r@[i])@ == self.spec_providers()[i].kind.spec_name(),
    {
        let mut r: Vec<&'static str> = Vec::new();
        let mut i: usize = 0;
        while i < self.providers.len()
            invariant
                self.wf(),
                i <= self.spec_providers().len(),
                r@.len() == i,
                forall|j: int|
                    0 <= j < i ==> (#[trigger] r@[j])@ == self.spec_providers()[j].kind.spec_name(),
            decreases self.spec_providers().len() - i,
        {
            let entry = &self.providers[i];
            if !entry.keys.is_empty() {
                r.push(entry.kind.name());
            }
            i += 1;
        }
        r
    }

    /// Drive one request through the failover policy. `outcomes[k]` is what
    /// the `k`-th adapter invocation would come to; the caller provides one
    /// outcome per key so the script cannot run dry. Returns the verdict and
    /// the number of attempts made.
    pub fn chat(&mut self, outcomes: &Vec<AttemptOutcome>) -> (r: (
        Result<(LlmResponse, String), ProviderError>,
        usize,
    ))
        requires
            old(self).wf(),
            outcomes@.len() >= old(self).spec_total_keys(),
        ensures
            final(self).wf(),
            old(self).same_config(*final(self)),
            old(self).chat_verdict(outcomes@, r.0, r.1 as int, 0),
            r.1 <= old(self).spec_total_keys(),
            (forall|i: int| 0 <= i < outcomes@.len() ==> !((#[trigger] outcomes@[i]) is Success))
                ==> r.0 is Err,
    {
        let r = self.chat_inner(outcomes, 0);
        proof {
            lemma_pool_used_bound(old(self).spec_ordered_counts(), 0, outcomes@, 0);
            if forall|i: int| 0 <= i < outcomes@.len() ==> !((#[trigger] outcomes@[i]) is Success) {
                lemma_all_failures_no_winner(old(self).spec_ordered_counts(), 0, outcomes@, 0);
            }
        }
        r
    }

    /// Like `chat`, but the named provider's next key is tried once first; on
    /// any failure the full pool takes over, default first, with no
    /// preferential retry of the named provider.
    pub fn chat_with_provider(&mut self, provider_name: &str, outcomes: &Vec<AttemptOutcome>) -> (r: (
        Result<(LlmResponse, String), ProviderError>,
        usize,
    ))
        requires
            old(self).wf(),
            outcomes@.len() >= 1 + old(self).spec_total_keys(),
        ensures
            final(self).wf(),
            old(self).same_config(*final(self)),
            match find_provider(old(self).spec_providers(), 0, provider_name@) {
                Some(i) => match outcomes@[0] {
                    AttemptOutcome::Success(resp) => r.0 matches Ok(p) && (llm_eq(p.0, resp) && p.1@
                        == provider_name@) && r.1 == 1,
                    AttemptOutcome::Failure(_) => old(self).chat_verdict(outcomes@, r.0, r.1 - 1, 1)
                        && r.1 >= 1,
                },
                None => old(self).chat_verdict(outcomes@, r.0, r.1 as int, 0),
            },
    {
        let _n = outcomes.len();
        let ghost pool0 = *old(self);
        let found = find_provider_exec(&self.providers, 0, provider_name);
        match found {
            Some(i) => {
                let _key = self.draw_key(i);
                proof {
                    lemma_same_config_same_counts(pool0, *self);
                }
                match &outcomes[0] {
                    AttemptOutcome::Success(resp) => {
                        return (Ok((resp.clone(), provider_name.to_owned())), 1);
                    },
                    AttemptOutcome::Failure(_) => {
                        let ghost pool1 = *self;
                        let (res, used) = self.chat_inner(outcomes, 1);
                        proof {
                            lemma_verdict_same_config(pool0, pool1, outcomes@, res, used as int, 1);
                        }
                        return (res, used + 1);
                    },
                }
            },
            None => self.chat_inner(outcomes, 0),
        }
    }

    /// The failover policy proper, reading outcomes from `start`.
    fn chat_inner(&mut self, outcomes: &Vec<AttemptOutcome>, start: usize) -> (r: (
        Result<(LlmResponse, String), ProviderError>,
        usize,
    ))
        requires
            old(self).wf(),
            outcomes@.len() >= start + old(self).spec_total_keys(),
        ensures
            final(self).wf(),
            old(self).same_config(*final(self)),
            old(self).chat_verdict(outcomes@, r.0, r.1 as int, start as int),
            r.1 <= old(self).spec_total_keys(),
    {
        proof {
            lemma_pool_used_bound(old(self).spec_ordered_counts(), 0, outcomes@, start as int);
            lemma_pool_winner_range(old(self).spec_ordered_counts(), 0, outcomes@, start as int);
        }
        if self.providers.len() == 0 {
            return (Err(ProviderError::NoKeysConfigured), 0);
        }
        let order = self.provider_order();
        let ghost counts = old(self).spec_ordered_counts();
        proof {
            assert(counts =~= counts_at(old(self).spec_providers(), order@));
        }
        let (win, used) = chat_from(&mut self.providers, &order, 0, outcomes, start);
        proof {
            assert(old(self).same_config(*self));
        }
        match win {
            Some((resp, widx)) => {
                let name = self.providers[widx].kind.name();
                (Ok((resp, name.to_owned())), used)
            },
            None => (Err(ProviderError::RequestError("All providers failed".to_owned())), used),
        }
    }
}

/// Pools with the same configuration agree on visit order, key counts and
/// total key count.
proof fn lemma_same_config_same_counts(a: ProviderPool, b: ProviderPool)
    requires
        a.same_config(b),
        b.wf(),
    ensures
        a.spec_visit_order() == b.spec_visit_order(),
        a.spec_ordered_counts() == b.spec_ordered_counts(),
        a.spec_total_keys() == b.spec_total_keys(),
{
    let n = a.spec_providers().len() as int;
    if n > 0 {
        let vo = a.spec_visit_order();
        assert forall|j: int| 0 <= j < vo.len() implies 0 <= #[trigger] vo[j] < n by {}
    }
    assert(a.spec_ordered_counts() =~= b.spec_ordered_counts());
}

/// The policy's verdict depends only on the pool's configuration, never on
/// its cursors.
proof fn lemma_verdict_same_config(
    a: ProviderPool,
    b: ProviderPool,
    outcomes: Seq<AttemptOutcome>,
    r: Result<(LlmResponse, String), ProviderError>,
    used: int,
    at: int,
)
    requires
        a.same_config(b),
        b.wf(),
        b.chat_verdict(outcomes, r, used, at),
    ensures
        a.chat_verdict(outcomes, r, used, at),
{
    lemma_same_config_same_counts(a, b);
    let n = a.spec_providers().len() as int;
    if n > 0 {
        match pool_winner(a.spec_ordered_counts(), 0, outcomes, at) {
            Some(j) => {
                lemma_pool_winner_range(a.spec_ordered_counts(), 0, outcomes, at);
                let vo = a.spec_visit_order();
                assert(0 <= vo[j] < n);
            },
            None => {},
        }
    }
}

/// Key counts per provider in the order the given visit order prescribes.
pub open spec fn counts_at(providers: Seq<ProviderEntry>, order: Seq<usize>) -> Seq<nat> {
    Seq::new(order.len(), |j: int| providers[order[j] as int].keys.spec_keys().len())
}

/// The kinds OpenAi, Gemini, Groq, Mistral, in that fixed order, keeping
/// those whose flag says a key was configured.
pub open spec fn configured_kinds(c: bool, ge: bool, gr: bool, m: bool) -> Seq<ProviderKind> {
    (if c {
        seq![ProviderKind::OpenAi]
    } else {
        Seq::<ProviderKind>::empty()
    }) + (if ge {
        seq![ProviderKind::Gemini]
    } else {
        Seq::<ProviderKind>::empty()
    }) + (if gr {
        seq![ProviderKind::Groq]
    } else {
        Seq::<ProviderKind>::empty()
    }) + (if m {
        seq![ProviderKind::Mistral]
    } else {
        Seq::<ProviderKind>::empty()
    })
}

proof fn lemma_find_provider_in_range(providers: Seq<ProviderEntry>, start: int, name: Seq<char>)
    requires
        0 <= start,
    ensures
        match find_provider(providers, start, name) {
            Some(i) => start <= i < providers.len(),
            None => true,
        },
    decreases providers.len() - start,
{
    if start < providers.len() && providers[start].kind.spec_name() != name {
        lemma_find_provider_in_range(providers, start + 1, name);
    }
}

/// First provider at or after `start` whose name is `name`, as `find_provider`
/// describes.
fn find_provider_exec(providers: &Vec<ProviderEntry>, start: usize, name: &str) -> (r: Option<usize>)
    requires
        start <= providers@.len(),
    ensures
        match r {
            Some(i) => find_provider(providers@, start as int, name@) == Some(i as int) && i
                < providers@.len(),
            None => find_provider(providers@, start as int, name@) is None,
        },
    decreases providers@.len() - start,
{
    if start >= providers.len() {
        None
    } else if str_eq(providers[start].kind.name(), name) {
        Some(start)
    } else {
        find_provider_exec(providers, start + 1, name)
    }
}

/// Visit the providers `order[oi..]` in turn, reading outcomes from `start`:
/// the recursive body of the failover policy.
fn chat_from(
    providers: &mut Vec<ProviderEntry>,
    order: &Vec<usize>,
    oi: usize,
    outcomes: &Vec<AttemptOutcome>,
    start: usize,
) -> (r: (Option<(LlmResponse, usize)>, usize))
    requires
        oi <= order@.len(),
        forall|k: int|
            0 <= k < old(providers)@.len() ==> (#[trigger] old(providers)@[k]).keys.wf() && old(
                providers,
            )@[k].keys.spec_keys().len() > 0,
        forall|k: int| 0 <= k < order@.len() ==> (#[trigger] order@[k]) < old(providers)@.len(),
        start + sum_counts(counts_at(old(providers)@, order@), oi as int) <= outcomes@.len(),
    ensures
        providers_same_shape(old(providers)@, final(providers)@),
        r.1 == pool_used(counts_at(old(providers)@, order@), oi as int, outcomes@, start as int),
        match pool_winner(counts_at(old(providers)@, order@), oi as int, outcomes@, start as int) {
            Some(j) => r.0 matches Some(p) && (0 <= j < order@.len() && p.1 == order@[j] && (
            outcomes@[start + r.1 - 1] matches AttemptOutcome::Success(resp) && llm_eq(p.0, resp))),
            None => r.0 is None,
        },
    decreases order@.len() - oi,
{
    let _n = outcomes.len();
    let ghost counts = counts_at(old(providers)@, order@);
    proof {
        lemma_pool_winner_range(counts, oi as int, outcomes@, start as int);
    }
    if oi == order.len() {
        return (None, 0);
    }
    let p = order[oi];
    let tries = providers[p].keys.len();
    proof {
        assert(counts[oi as int] == tries as nat);
        // the requires bounds this provider's share of the outcomes
        assert(sum_counts(counts, oi as int) == tries + sum_counts(counts, oi as int + 1));
        lemma_provider_used_bound(tries as nat, outcomes@, start as int);
    }
    let entry = &mut providers[p];
    let (res, used) = try_provider(entry, tries, outcomes, start);
    proof {
        assert(counts_at(providers@, order@) =~= counts);
    }
    match res {
        Some(resp) => (Some((resp, p)), used),
        None => {
            let (res2, used2) = chat_from(providers, order, oi + 1, outcomes, start + used);
            proof {
                lemma_pool_used_bound(counts, oi as int + 1, outcomes@, start as int + used as int);
            }
            let r2 = match res2 {
                Some((resp, widx)) => (Some((resp, widx)), used + used2),
                None => (None, used + used2),
            };
            r2
        },
    }
}

/// Same providers, same keys; only the cursors may differ.
pub open spec fn providers_same_shape(a: Seq<ProviderEntry>, b: Seq<ProviderEntry>) -> bool {
    &&& a.len() == b.len()
    &&& forall|i: int|
        0 <= i < a.len() ==> (#[trigger] b[i]).kind == a[i].kind && b[i].keys.spec_keys()
            == a[i].keys.spec_keys() && b[i].keys.wf()
}

/// Give one provider up to `tries` attempts, reading outcomes from `start`;
/// every attempt draws the provider's next key.
fn try_provider(entry: &mut ProviderEntry, tries: usize, outcomes: &Vec<AttemptOutcome>, start: usize) -> (r: (
    Option<LlmResponse>,
    usize,
))
    requires
        old(entry).keys.wf(),
        old(entry).keys.spec_keys().len() > 0,
        start + tries <= outcomes@.len(),
    ensures
        final(entry).keys.wf(),
        final(entry).keys.spec_keys() == old(entry).keys.spec_keys(),
        final(entry).kind == old(entry).kind,
        r.1 == provider_used(tries as nat, outcomes@, start as int),
        r.1 <= tries,
        (r.0 is Some) == provider_wins(tries as nat, outcomes@, start as int),
        r.0 matches Some(resp) ==> (outcomes@[start + r.1 - 1] matches AttemptOutcome::Success(s)
            && llm_eq(resp, s)),
    decreases tries,
{
    let _n = outcomes.len();
    if tries == 0 {
        return (None, 0);
    }
    // every real attempt draws a key, so the cursor rotates here too
    let _key = entry.keys.next_key();
    match &outcomes[start] {
        AttemptOutcome::Success(resp) => (Some(resp.clone()), 1),
        AttemptOutcome::Failure(e) => match e {
            ProviderError::RateLimited => {
                let (res, used) = try_provider(entry, tries - 1, outcomes, start + 1);
                (res, used + 1)
            },
            _ => (None, 1),
        },
    }
}

} // verus!
