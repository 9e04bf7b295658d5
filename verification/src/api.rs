//! The data that crosses AdGuard Home's `/control/*` REST API and the
//! decisions taken on it: how an HTTP reply is classified, and which rewrites
//! an idempotent upsert deletes before it adds the desired one.

use vstd::prelude::*;
use vstd::string::*;

verus! {

/// A single DNS rewrite: `domain` -> `answer` (an IP or another hostname).
/// Matches AdGuard's `/control/rewrite/*` request/response body verbatim.
#[derive(Debug, Clone, PartialEq, Eq)]
pub struct Rewrite {
    pub domain: String,
    pub answer: String,
}

/// The content of a rewrite: its domain and its answer.
pub struct RewriteView {
    pub domain: Seq<char>,
    pub answer: Seq<char>,
}

impl View for Rewrite {
    type V = RewriteView;

    open spec fn view(&self) -> RewriteView {
        RewriteView { domain: self.domain@, answer: self.answer@ }
    }
}

/// The contents of a list of rewrites.
pub open spec fn rewrite_views(rs: Seq<Rewrite>) -> Seq<RewriteView> {
    rs.map_values(|r: Rewrite| r@)
}

/// Holds of the rewrites for `domain`, whatever their answer.
pub open spec fn for_domain(domain: Seq<char>) -> spec_fn(RewriteView) -> bool {
    |r: RewriteView| r.domain == domain
}

/// Holds of the rewrites for any domain other than `domain`.
pub open spec fn not_for_domain(domain: Seq<char>) -> spec_fn(RewriteView) -> bool {
    |r: RewriteView| r.domain != domain
}

/// The subset of `/control/status` that is surfaced.
#[derive(Debug, Clone)]
pub struct Status {
    pub version: Option<String>,
    pub running: Option<bool>,
    pub protection_enabled: Option<bool>,
    pub dns_addresses: Vec<String>,
}

/// What can go wrong when talking to AdGuard Home.
#[derive(Debug)]
pub enum AdguardError {
    /// The request did not complete (connection, TLS, body read, ...).
    Transport(String),
    /// AdGuard answered with a non-2xx status.
    Api { status: u16, body: String },
    /// AdGuard answered 2xx with a body that is not the expected JSON.
    Malformed(String),
}

/// The error for a request that did not complete, carrying the message of
/// the underlying failure.
pub fn transport(message: String) -> (e: AdguardError)
    ensures
        e == AdguardError::Transport(message),
{
    AdguardError::Transport(message)
}

/// HTTP statuses 200..=299 are successes.
pub open spec fn success_status(status: u16) -> bool {
    200 <= status <= 299
}

/// Success means a status from 200 to 299 inclusive: every 2xx status and
/// nothing else, 1xx, 3xx, 4xx and 5xx included.
pub proof fn lemma_success_status_is_2xx(status: u16)
    ensures
        success_status(status) <==> 200 <= status <= 299,
        status < 200 ==> !success_status(status),
        status >= 300 ==> !success_status(status),
{
}

/// Whether an HTTP status is a success (2xx).
pub fn is_success(status: u16) -> (ok: bool)
    ensures
        ok == success_status(status),
        ok <==> 200 <= status <= 299,
{
    200 <= status && status <= 299
}

/// Classifies a reply of AdGuard Home: a 2xx status hands the body on, any
/// other status is an API error carrying the status and the body.
pub fn classify_reply(status: u16, body: String) -> (r: Result<String, AdguardError>)
    ensures
        success_status(status) ==> r == Ok::<String, AdguardError>(body),
        !success_status(status) ==> r == Err::<String, AdguardError>(
            AdguardError::Api { status, body },
        ),
        200 <= status <= 299 ==> r == Ok::<String, AdguardError>(body),
        !(200 <= status <= 299) ==> r == Err::<String, AdguardError>(
            AdguardError::Api { status, body },
        ),
{
    if is_success(status) {
        Ok(body)
    } else {
        Err(AdguardError::Api { status, body })
    }
}

/// What an idempotent upsert of one domain does: delete every rewrite in
/// `stale`, then add `desired`.
pub struct SetRewritePlan {
    pub stale: Vec<Rewrite>,
    pub desired: Rewrite,
}

/// Plans the upsert that points `domain` at `answer`, given the rewrites the
/// instance holds now: every existing rewrite for `domain` (any answer) is to
/// be deleted, in list order, then `domain -> answer` added. AdGuard has no
/// update verb, so this is the delete-then-add pattern.
pub fn plan_set_rewrite(
    existing: &Vec<Rewrite>,
    domain: &str,
    answer: &str,
) -> (plan: SetRewritePlan)
    ensures
        rewrite_views(plan.stale@) == rewrite_views(existing@).filter(for_domain(domain@)),
        plan.desired@ == (RewriteView { domain: domain@, answer: answer@ }),
        forall|i: int| 0 <= i < plan.stale@.len() ==> #[trigger] plan.stale@[i].domain@ == domain@,
        forall|i: int|
            0 <= i < existing@.len() && #[trigger] existing@[i].domain@ == domain@
                ==> rewrite_views(plan.stale@).contains(existing@[i]@),
        plan.stale@.len() <= existing@.len(),
{
    let target = String::from_str(domain);
    let mut stale: Vec<Rewrite> = Vec::new();
    let n = existing.len();
    for i in 0..n
        invariant
            n == existing@.len(),
            target@ == domain@,
            rewrite_views(stale@) == rewrite_views(existing@.take(i as int)).filter(
                for_domain(domain@),
            ),
    {
        let r = &existing[i];
        let ghost before = stale@;
        proof {
            assert(rewrite_views(existing@.take(i + 1)) =~= rewrite_views(
                existing@.take(i as int),
            ).push(r@));
            reveal_with_fuel(Seq::filter, 1);
            assert(rewrite_views(existing@.take(i + 1)).drop_last() =~= rewrite_views(
                existing@.take(i as int),
            ));
        }
        if r.domain == target {
            stale.push(Rewrite { domain: r.domain.clone(), answer: r.answer.clone() });
            assert(rewrite_views(stale@) =~= rewrite_views(before).push(r@));
        }
    }
    assert(existing@.take(n as int) =~= existing@);
    proof {
        let all = rewrite_views(existing@);
        let kept = rewrite_views(stale@);
        all.lemma_filter_len(for_domain(domain@));
        assert forall|i: int| 0 <= i < stale@.len() implies #[trigger] stale@[i].domain@
            == domain@ by {
            all.lemma_filter_pred(for_domain(domain@), i);
            assert(kept[i] == stale@[i]@);
        }
        assert forall|i: int|
            0 <= i < existing@.len() && #[trigger] existing@[i].domain@ == domain@ implies kept.contains(
            existing@[i]@) by {
            assert(all[i] == existing@[i]@);
            all.lemma_filter_contains(for_domain(domain@), i);
        }
    }
    SetRewritePlan { stale, desired: Rewrite { domain: target, answer: String::from_str(answer) } }
}


/// AdGuard's `rewrite/delete` on its rewrite table: every rewrite equal to
/// `r` is removed, the others keep their order.
pub open spec fn delete_from_table(table: Seq<RewriteView>, r: RewriteView) -> Seq<RewriteView> {
    table.filter(differs_from(r))
}

/// Holds of the rewrites other than `r`.
pub open spec fn differs_from(r: RewriteView) -> spec_fn(RewriteView) -> bool {
    |x: RewriteView| x != r
}

/// Holds of the rewrites that are not among `rs`.
pub open spec fn not_among(rs: Seq<RewriteView>) -> spec_fn(RewriteView) -> bool {
    |x: RewriteView| !rs.contains(x)
}

spec fn both(p: spec_fn(RewriteView) -> bool, q: spec_fn(RewriteView) -> bool) -> spec_fn(
    RewriteView,
) -> bool {
    |x: RewriteView| p(x) && q(x)
}

spec fn keep_all() -> spec_fn(RewriteView) -> bool {
    |x: RewriteView| true
}

/// AdGuard's `rewrite/add` on its rewrite table: `r` is appended.
pub open spec fn add_to_table(table: Seq<RewriteView>, r: RewriteView) -> Seq<RewriteView> {
    table.push(r)
}

/// The table after deleting each of `rs` in turn.
pub open spec fn delete_each_from_table(
    table: Seq<RewriteView>,
    rs: Seq<RewriteView>,
) -> Seq<RewriteView>
    decreases rs.len(),
{
    if rs.len() == 0 {
        table
    } else {
        delete_each_from_table(delete_from_table(table, rs[0]), rs.drop_first())
    }
}

/// The table after carrying out an upsert plan: the stale rewrites deleted in
/// turn, then the desired one added.
pub open spec fn apply_set_plan(
    table: Seq<RewriteView>,
    stale: Seq<RewriteView>,
    desired: RewriteView,
) -> Seq<RewriteView> {
    add_to_table(delete_each_from_table(table, stale), desired)
}

/// The table after the upsert that `plan_set_rewrite` plans for `table`.
pub open spec fn set_rewrite_on_table(
    table: Seq<RewriteView>,
    domain: Seq<char>,
    answer: Seq<char>,
) -> Seq<RewriteView> {
    apply_set_plan(
        table,
        table.filter(for_domain(domain)),
        RewriteView { domain: domain, answer: answer },
    )
}

proof fn lemma_filter_congruent(
    t: Seq<RewriteView>,
    p: spec_fn(RewriteView) -> bool,
    q: spec_fn(RewriteView) -> bool,
)
    requires
        forall|i: int| 0 <= i < t.len() ==> p(t[i]) == q(t[i]),
    ensures
        t.filter(p) == t.filter(q),
    decreases t.len(),
{
    reveal_with_fuel(Seq::filter, 1);
    if t.len() > 0 {
        lemma_filter_congruent(t.drop_last(), p, q);
    }
}

proof fn lemma_filter_filter(
    t: Seq<RewriteView>,
    p: spec_fn(RewriteView) -> bool,
    q: spec_fn(RewriteView) -> bool,
)
    ensures
        t.filter(p).filter(q) == t.filter(both(p, q)),
    decreases t.len(),
{
    reveal_with_fuel(Seq::filter, 1);
    if t.len() > 0 {
        lemma_filter_filter(t.drop_last(), p, q);
        let sub = t.drop_last().filter(p);
        if p(t.last()) {
            sub.lemma_filter_push(t.last(), q);
        }
    }
}

proof fn lemma_delete_each(t: Seq<RewriteView>, rs: Seq<RewriteView>)
    ensures
        delete_each_from_table(t, rs) == t.filter(not_among(rs)),
    decreases rs.len(),
{
    if rs.len() == 0 {
        lemma_filter_congruent(t, not_among(rs), keep_all());
        lemma_filter_all(t);
    } else {
        let r0 = rs[0];
        let rest = rs.drop_first();
        let p = differs_from(r0);
        let q = not_among(rest);
        lemma_delete_each(delete_from_table(t, r0), rest);
        lemma_filter_filter(t, p, q);
        assert forall|x: RewriteView| #[trigger] rs.contains(x) == (x == r0 || rest.contains(x)) by {
            if rs.contains(x) && x != r0 {
                let k = choose|k: int| 0 <= k < rs.len() && rs[k] == x;
                assert(rest[k - 1] == x);
            }
            if rest.contains(x) {
                let k = choose|k: int| 0 <= k < rest.len() && rest[k] == x;
                assert(rs[k + 1] == x);
            }
        }
        lemma_filter_congruent(t, both(p, q), not_among(rs));
    }
}

proof fn lemma_filter_all(t: Seq<RewriteView>)
    ensures
        t.filter(keep_all()) == t,
    decreases t.len(),
{
    reveal_with_fuel(Seq::filter, 1);
    if t.len() > 0 {
        lemma_filter_all(t.drop_last());
        assert(t.drop_last().push(t.last()) =~= t);
    }
}

/// Upsert result: after carrying out the plan for `domain -> answer`, the
/// table holds the rewrites of every other domain, unchanged and in their
/// order, followed by `domain -> answer` as the only rewrite for `domain`.
pub proof fn lemma_set_rewrite_result(table: Seq<RewriteView>, domain: Seq<char>, answer: Seq<char>)
    ensures
        set_rewrite_on_table(table, domain, answer) == table.filter(not_for_domain(domain)).push(
            RewriteView { domain: domain, answer: answer },
        ),
{
    let stale = table.filter(for_domain(domain));
    lemma_delete_each(table, stale);
    broadcast use Seq::lemma_filter_pred, Seq::lemma_filter_contains;

    assert forall|i: int| 0 <= i < table.len() implies not_among(stale)(table[i]) == not_for_domain(
        domain,
    )(table[i]) by {
        if table[i].domain == domain {
            assert(stale.contains(table[i]));
        } else if stale.contains(table[i]) {
            let k = choose|k: int| 0 <= k < stale.len() && stale[k] == table[i];
            assert(for_domain(domain)(stale[k]));
        }
    }
    lemma_filter_congruent(table, not_among(stale), not_for_domain(domain));
}

/// Upsert is idempotent: pointing `domain` at `answer` a second time leaves
/// the table as the first time left it.
pub proof fn lemma_set_rewrite_idempotent(
    table: Seq<RewriteView>,
    domain: Seq<char>,
    answer: Seq<char>,
)
    ensures
        set_rewrite_on_table(set_rewrite_on_table(table, domain, answer), domain, answer)
            == set_rewrite_on_table(table, domain, answer),
{
    let desired = RewriteView { domain: domain, answer: answer };
    let kept = table.filter(not_for_domain(domain));
    let once = set_rewrite_on_table(table, domain, answer);
    lemma_set_rewrite_result(table, domain, answer);
    lemma_set_rewrite_result(once, domain, answer);
    kept.lemma_filter_push(desired, not_for_domain(domain));
    lemma_filter_filter(table, not_for_domain(domain), not_for_domain(domain));
    lemma_filter_congruent(
        table,
        both(not_for_domain(domain), not_for_domain(domain)),
        not_for_domain(domain),
    );
}

} // verus!
