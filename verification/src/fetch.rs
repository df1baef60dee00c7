//! Fetching a formula with all its dependencies, batch by batch.
use crate::error::{first_failure, Error};
use crate::formula::{copy_texts, Formula, FormulaView};
use crate::text::{same_text, texts};
use crate::text_map::TextMap;
use vstd::prelude::*;
use vstd::string::*;

verus! {

/// The formulas of a map, as models.
pub open spec fn formula_views(m: Map<Seq<char>, Formula>) -> Map<Seq<char>, FormulaView> {
    m.map_values(|f: Formula| f@)
}

/// The formulas that were fetched for a formula, and the names of those that are
/// still to be fetched or are being fetched.
pub struct FetchQueue {
    root: String,
    formulas: TextMap<Formula>,
    fetched: Vec<String>,
    to_fetch: Vec<String>,
    batch: Vec<String>,
}

/// Model of a [`FetchQueue`].
#[verifier::ext_equal]
pub struct QueueView {
    pub root: Seq<char>,
    pub formulas: Map<Seq<char>, FormulaView>,
    pub fetched: Seq<Seq<char>>,
    pub to_fetch: Seq<Seq<char>>,
    pub batch: Seq<Seq<char>>,
}

/// The names that a queue knows of.
pub open spec fn knows(q: QueueView, name: Seq<char>) -> bool {
    q.fetched.contains(name) || q.to_fetch.contains(name)
}

/// Each name of the path but the first is a dependency of the one before it.
pub open spec fn is_path(formulas: Map<Seq<char>, FormulaView>, path: Seq<Seq<char>>) -> bool {
    &&& path.len() > 0
    &&& forall|i: int|
        0 <= i < path.len() - 1 ==> formulas.contains_key(#[trigger] path[i])
            && formulas[path[i]].dependencies.contains(path[i + 1])
}

/// The path leads from one name to another.
pub open spec fn leads(
    formulas: Map<Seq<char>, FormulaView>,
    path: Seq<Seq<char>>,
    from: Seq<char>,
    to: Seq<char>,
) -> bool {
    is_path(formulas, path) && path[0] == from && path.last() == to
}

/// A name is that of the root or of a dependency, however far, of the root.
pub open spec fn is_needed(
    formulas: Map<Seq<char>, FormulaView>,
    root: Seq<char>,
    name: Seq<char>,
) -> bool {
    exists|path: Seq<Seq<char>>| leads(formulas, path, root, name)
}

/// The formulas are the root, and its dependencies, however far, and no others.
pub open spec fn is_closure(formulas: Map<Seq<char>, FormulaView>, root: Seq<char>) -> bool {
    &&& formulas.contains_key(root)
    &&& forall|n: Seq<char>, d: Seq<char>|
        #![trigger formulas.contains_key(n), formulas[n].dependencies.contains(d)]
        formulas.contains_key(n) && formulas[n].dependencies.contains(d) ==> formulas.contains_key(
            d,
        )
    &&& forall|n: Seq<char>| #[trigger] formulas.contains_key(n) ==> is_needed(formulas, root, n)
}

/// What holds of every queue: no name is queued twice or after it was fetched;
/// what was fetched has its formula or is being fetched; every dependency of a
/// formula is known; and everything that is known is needed.
pub open spec fn queue_holds(q: QueueView) -> bool {
    &&& q.fetched.no_duplicates()
    &&& q.to_fetch.no_duplicates()
    &&& q.batch.no_duplicates()
    &&& forall|n: Seq<char>| #[trigger] q.to_fetch.contains(n) ==> !q.fetched.contains(n)
    &&& forall|n: Seq<char>| #[trigger]
        q.batch.contains(n) ==> q.fetched.contains(n) && !q.formulas.contains_key(n)
    &&& forall|n: Seq<char>| #[trigger] q.formulas.contains_key(n) ==> q.fetched.contains(n)
    &&& forall|n: Seq<char>| #[trigger]
        q.fetched.contains(n) ==> q.formulas.contains_key(n) || q.batch.contains(n)
    &&& forall|n: Seq<char>, d: Seq<char>|
        #![trigger q.formulas.contains_key(n), q.formulas[n].dependencies.contains(d)]
        q.formulas.contains_key(n) && q.formulas[n].dependencies.contains(d) ==> knows(q, d)
    &&& knows(q, q.root)
    &&& forall|n: Seq<char>| #[trigger] knows(q, n) ==> is_needed(q.formulas, q.root, n)
}

/// The queue for a formula.
pub open spec fn queue_for(root: Seq<char>) -> QueueView {
    QueueView {
        root,
        formulas: Map::empty(),
        fetched: Seq::empty(),
        to_fetch: seq![root],
        batch: Seq::empty(),
    }
}

/// The queue while what was queued is being fetched.
pub open spec fn fetching(q: QueueView) -> QueueView {
    QueueView {
        fetched: q.fetched + q.to_fetch,
        to_fetch: Seq::empty(),
        batch: q.to_fetch,
        ..q
    }
}

/// The names to fetch with those dependencies that are neither fetched nor to be
/// fetched put behind them.
pub open spec fn queued(to_fetch: Seq<Seq<char>>, fetched: Seq<Seq<char>>, deps: Seq<Seq<char>>) -> Seq<
    Seq<char>,
>
    decreases deps.len(),
{
    if deps.len() == 0 {
        to_fetch
    } else {
        let front = queued(to_fetch, fetched, deps.drop_last());
        if fetched.contains(deps.last()) || front.contains(deps.last()) {
            front
        } else {
            front.push(deps.last())
        }
    }
}

/// The queue once the first of the names that are being fetched has its formula.
pub open spec fn accepted(q: QueueView, formula: FormulaView) -> QueueView {
    QueueView {
        formulas: q.formulas.insert(q.batch[0], formula),
        to_fetch: queued(q.to_fetch, q.fetched, formula.dependencies),
        batch: q.batch.skip(1),
        ..q
    }
}

/// The queue once several of the names that are being fetched have their formulas.
pub open spec fn all_accepted(q: QueueView, formulas: Seq<FormulaView>) -> QueueView
    decreases formulas.len(),
{
    if formulas.len() == 0 {
        q
    } else {
        accepted(all_accepted(q, formulas.drop_last()), formulas.last())
    }
}

proof fn lemma_queued(to_fetch: Seq<Seq<char>>, fetched: Seq<Seq<char>>, deps: Seq<Seq<char>>)
    requires
        to_fetch.no_duplicates(),
        forall|n: Seq<char>| #[trigger] to_fetch.contains(n) ==> !fetched.contains(n),
    ensures
        queued(to_fetch, fetched, deps).no_duplicates(),
        forall|n: Seq<char>| #[trigger]
            queued(to_fetch, fetched, deps).contains(n) ==> !fetched.contains(n) && (
            to_fetch.contains(n) || deps.contains(n)),
        forall|n: Seq<char>| #[trigger]
            to_fetch.contains(n) ==> queued(to_fetch, fetched, deps).contains(n),
        forall|n: Seq<char>| #[trigger]
            deps.contains(n) ==> fetched.contains(n) || queued(to_fetch, fetched, deps).contains(n),
    decreases deps.len(),
{
    if deps.len() > 0 {
        let less = deps.drop_last();
        let front = queued(to_fetch, fetched, less);
        let all = queued(to_fetch, fetched, deps);
        let d = deps.last();
        lemma_queued(to_fetch, fetched, less);
        if !(fetched.contains(d) || front.contains(d)) {
            assert(all == front.push(d));
            assert forall|n: Seq<char>| #[trigger] all.contains(n) <==> front.contains(n) || n
                == d by {
                if all.contains(n) {
                    let i = choose|i: int| 0 <= i < all.len() && all[i] == n;
                    if i < front.len() {
                        assert(front[i] == n);
                    }
                }
                if front.contains(n) {
                    let i = choose|i: int| 0 <= i < front.len() && front[i] == n;
                    assert(all[i] == n);
                }
                assert(all[front.len() as int] == d);
            }
            assert forall|i: int, j: int|
                0 <= i < all.len() && 0 <= j < all.len() && i != j implies all[i] != all[j] by {
                if i == front.len() {
                    assert(front[j] == all[j]);
                    assert(front.contains(front[j]));
                } else if j == front.len() {
                    assert(front[i] == all[i]);
                    assert(front.contains(front[i]));
                } else {
                    assert(front[i] == all[i] && front[j] == all[j]);
                }
            }
        }
        assert forall|n: Seq<char>| #[trigger] deps.contains(n) <==> less.contains(n) || n
            == d by {
            if deps.contains(n) {
                let i = choose|i: int| 0 <= i < deps.len() && deps[i] == n;
                if i < less.len() {
                    assert(less[i] == n);
                }
            }
            if less.contains(n) {
                let i = choose|i: int| 0 <= i < less.len() && less[i] == n;
                assert(deps[i] == n);
            }
            assert(deps[deps.len() - 1] == d);
        }
    }
}

/// A name that is needed stays needed when a formula comes to those that are there.
proof fn lemma_still_needed(
    formulas: Map<Seq<char>, FormulaView>,
    root: Seq<char>,
    n: Seq<char>,
    key: Seq<char>,
    formula: FormulaView,
)
    requires
        is_needed(formulas, root, n),
        !formulas.contains_key(key),
    ensures
        is_needed(formulas.insert(key, formula), root, n),
{
    let path = choose|path: Seq<Seq<char>>| leads(formulas, path, root, n);
    let more = formulas.insert(key, formula);
    assert forall|i: int| 0 <= i < path.len() - 1 implies more.contains_key(#[trigger] path[i])
        && more[path[i]].dependencies.contains(path[i + 1]) by {
        assert(formulas.contains_key(path[i]));
    }
    assert(leads(more, path, root, n));
}

/// A dependency of a formula that is needed is needed.
proof fn lemma_dependency_needed(
    formulas: Map<Seq<char>, FormulaView>,
    root: Seq<char>,
    n: Seq<char>,
    d: Seq<char>,
)
    requires
        is_needed(formulas, root, n),
        formulas.contains_key(n),
        formulas[n].dependencies.contains(d),
    ensures
        is_needed(formulas, root, d),
{
    let path = choose|path: Seq<Seq<char>>| leads(formulas, path, root, n);
    let more = path.push(d);
    assert forall|i: int| 0 <= i < more.len() - 1 implies formulas.contains_key(#[trigger] more[i])
        && formulas[more[i]].dependencies.contains(more[i + 1]) by {
        if i < path.len() - 1 {
            assert(formulas.contains_key(path[i]));
            assert(more[i] == path[i] && more[i + 1] == path[i + 1]);
        } else {
            assert(more[i] == n && more[i + 1] == d);
        }
    }
    assert(leads(formulas, more, root, d));
}

/// The queue for a formula holds what every queue holds.
pub proof fn law_queue_starts(root: Seq<char>)
    ensures
        queue_holds(queue_for(root)),
{
    let q = queue_for(root);
    assert(q.to_fetch[0] == root);
    assert(leads(q.formulas, seq![root], root, root));
    assert forall|n: Seq<char>| #[trigger] knows(q, n) implies is_needed(q.formulas, q.root, n) by {
        assert(n == root);
    }
}

/// Starting to fetch keeps what every queue holds.
pub proof fn law_fetching_keeps(q: QueueView)
    requires
        queue_holds(q),
        q.batch.len() == 0,
    ensures
        queue_holds(fetching(q)),
{
    let r = fetching(q);
    assert forall|n: Seq<char>| #[trigger] r.fetched.contains(n) <==> q.fetched.contains(n)
        || q.to_fetch.contains(n) by {
        if r.fetched.contains(n) {
            let i = choose|i: int| 0 <= i < r.fetched.len() && r.fetched[i] == n;
            if i < q.fetched.len() {
                assert(q.fetched[i] == n);
            } else {
                assert(q.to_fetch[i - q.fetched.len()] == n);
            }
        }
        if q.fetched.contains(n) {
            let i = choose|i: int| 0 <= i < q.fetched.len() && q.fetched[i] == n;
            assert(r.fetched[i] == n);
        }
        if q.to_fetch.contains(n) {
            let i = choose|i: int| 0 <= i < q.to_fetch.len() && q.to_fetch[i] == n;
            assert(r.fetched[q.fetched.len() + i] == n);
        }
    }
    assert forall|i: int, j: int|
        0 <= i < r.fetched.len() && 0 <= j < r.fetched.len() && i != j implies r.fetched[i]
        != r.fetched[j] by {
        let n = q.fetched.len() as int;
        if i < n && j < n {
            assert(q.fetched[i] == r.fetched[i] && q.fetched[j] == r.fetched[j]);
        } else if i >= n && j >= n {
            assert(q.to_fetch[i - n] == r.fetched[i] && q.to_fetch[j - n] == r.fetched[j]);
        } else if i < n {
            assert(q.fetched.contains(q.fetched[i]));
            assert(q.to_fetch.contains(q.to_fetch[j - n]));
        } else {
            assert(q.fetched.contains(q.fetched[j]));
            assert(q.to_fetch.contains(q.to_fetch[i - n]));
        }
    }
    assert forall|n: Seq<char>| #[trigger] knows(r, n) implies is_needed(r.formulas, r.root, n) by {
        assert(knows(q, n));
    }
    assert forall|n: Seq<char>, d: Seq<char>|
        #![trigger r.formulas.contains_key(n), r.formulas[n].dependencies.contains(d)]
        r.formulas.contains_key(n) && r.formulas[n].dependencies.contains(d) implies knows(
        r,
        d,
    ) by {
        assert(q.formulas.contains_key(n) && q.formulas[n].dependencies.contains(d));
        assert(knows(q, d));
    }
    assert(knows(q, q.root));
    assert forall|n: Seq<char>| #[trigger] r.batch.contains(n) implies r.fetched.contains(n)
        && !r.formulas.contains_key(n) by {
        assert(q.to_fetch.contains(n));
    }
}

/// Taking in a formula keeps what every queue holds.
pub proof fn law_accepting_keeps(q: QueueView, formula: FormulaView)
    requires
        queue_holds(q),
        q.batch.len() > 0,
    ensures
        queue_holds(accepted(q, formula)),
{
    let r = accepted(q, formula);
    let key = q.batch[0];
    assert(q.batch.contains(key));
    lemma_queued(q.to_fetch, q.fetched, formula.dependencies);
    assert forall|n: Seq<char>| #[trigger] r.batch.contains(n) <==> q.batch.contains(n) && n
        != key by {
        if r.batch.contains(n) {
            let i = choose|i: int| 0 <= i < r.batch.len() && r.batch[i] == n;
            assert(q.batch[i + 1] == n);
        }
        if q.batch.contains(n) && n != key {
            let i = choose|i: int| 0 <= i < q.batch.len() && q.batch[i] == n;
            assert(r.batch[i - 1] == n);
        }
    }
    assert forall|i: int, j: int|
        0 <= i < r.batch.len() && 0 <= j < r.batch.len() && i != j implies r.batch[i]
        != r.batch[j] by {
        assert(q.batch[i + 1] == r.batch[i] && q.batch[j + 1] == r.batch[j]);
    }
    assert(knows(q, key));
    assert forall|n: Seq<char>| #[trigger] knows(r, n) implies is_needed(r.formulas, r.root, n) by {
        if knows(q, n) {
            lemma_still_needed(q.formulas, q.root, n, key, formula);
        } else {
            assert(formula.dependencies.contains(n));
            lemma_still_needed(q.formulas, q.root, key, key, formula);
            lemma_dependency_needed(r.formulas, r.root, key, n);
        }
    }
    assert forall|n: Seq<char>, d: Seq<char>|
        #![trigger r.formulas.contains_key(n), r.formulas[n].dependencies.contains(d)]
        r.formulas.contains_key(n) && r.formulas[n].dependencies.contains(d) implies knows(
        r,
        d,
    ) by {
        if n == key {
            assert(formula.dependencies.contains(d));
        } else {
            assert(q.formulas.contains_key(n) && q.formulas[n].dependencies.contains(d));
            assert(knows(q, d));
        }
    }
    assert(knows(q, q.root));
}

/// Once nothing is left to fetch, what was fetched is the formula with all that it
/// needs, and nothing else.
pub proof fn law_finished_queue_is_closed(q: QueueView)
    requires
        queue_holds(q),
        q.to_fetch.len() == 0,
        q.batch.len() == 0,
    ensures
        is_closure(q.formulas, q.root),
{
    assert(knows(q, q.root));
    assert forall|n: Seq<char>, d: Seq<char>|
        #![trigger q.formulas.contains_key(n), q.formulas[n].dependencies.contains(d)]
        q.formulas.contains_key(n) && q.formulas[n].dependencies.contains(
            d,
        ) implies q.formulas.contains_key(d) by {
        assert(knows(q, d));
    }
    assert forall|n: Seq<char>| #[trigger] q.formulas.contains_key(n) implies is_needed(
        q.formulas,
        q.root,
        n,
    ) by {
        assert(knows(q, n));
    }
}

/// However the formulas depend on each other, no more names are fetched than there
/// are.
pub proof fn law_fetching_ends(q: QueueView, names: Set<Seq<char>>)
    requires
        queue_holds(q),
        names.finite(),
        forall|n: Seq<char>| #[trigger] knows(q, n) ==> names.contains(n),
    ensures
        q.fetched.len() <= names.len(),
{
    q.fetched.unique_seq_to_set();
    assert forall|n: Seq<char>| #[trigger] q.fetched.to_set().contains(n) implies names.contains(
        n,
    ) by {
        assert(knows(q, n));
    }
    vstd::set_lib::lemma_len_subset(q.fetched.to_set(), names);
}

/// Whether a list of strings holds a text.
fn lists(v: &Vec<String>, text: &str) -> (r: bool)
    ensures
        r == texts(v@).contains(text@),
{
    let mut i: usize = 0;
    while i < v.len()
        invariant
            i <= v.len(),
            forall|j: int| 0 <= j < i ==> #[trigger] texts(v@)[j] != text@,
        decreases v.len() - i,
    {
        if same_text(v[i].as_str(), text) {
            proof {
                assert(texts(v@)[i as int] == text@);
            }
            return true;
        }
        i = i + 1;
    }
    false
}

/// Puts those dependencies behind the names to fetch that are neither fetched nor
/// to be fetched.
fn queue(to_fetch: &mut Vec<String>, fetched: &Vec<String>, deps: &Vec<String>)
    ensures
        texts(final(to_fetch)@) == queued(texts(old(to_fetch)@), texts(fetched@), texts(deps@)),
{
    let ghost start = texts(to_fetch@);
    let mut i: usize = 0;
    proof {
        assert(texts(deps@).take(0).len() == 0);
    }
    while i < deps.len()
        invariant
            i <= deps.len(),
            texts(to_fetch@) == queued(start, texts(fetched@), texts(deps@).take(i as int)),
        decreases deps.len() - i,
    {
        let ghost held = texts(to_fetch@);
        proof {
            assert(texts(deps@).take(i + 1).drop_last() =~= texts(deps@).take(i as int));
            assert(texts(deps@).take(i + 1).last() == deps@[i as int]@);
        }
        if !lists(fetched, deps[i].as_str()) && !lists(to_fetch, deps[i].as_str()) {
            to_fetch.push(deps[i].clone());
            proof {
                assert(texts(to_fetch@) =~= held.push(deps@[i as int]@));
            }
        }
        i = i + 1;
    }
    proof {
        assert(texts(deps@).take(i as int) =~= texts(deps@));
    }
}

/// The formulas among the results, up to the first failure.
pub open spec fn fetched_formulas(results: Seq<Result<Formula, Error>>) -> Seq<FormulaView>
    decreases results.len(),
{
    if results.len() == 0 || results[0] is Err {
        Seq::empty()
    } else {
        seq![results[0]->Ok_0@] + fetched_formulas(results.skip(1))
    }
}

/// Where nothing failed, there is a formula for each result, in the order of the results.
pub proof fn law_no_failure_is_all_formulas(results: Seq<Result<Formula, Error>>)
    requires
        first_failure(results) is None,
    ensures
        fetched_formulas(results).len() == results.len(),
        forall|i: int|
            0 <= i < results.len() ==> (#[trigger] results[i]) is Ok && fetched_formulas(
                results,
            )[i] == results[i]->Ok_0@,
    decreases results.len(),
{
    if results.len() > 0 {
        let rest = results.skip(1);
        law_no_failure_is_all_formulas(rest);
        assert forall|i: int| 0 <= i < results.len() implies (#[trigger] results[i]) is Ok
            && fetched_formulas(results)[i] == results[i]->Ok_0@ by {
            if i > 0 {
                assert(rest[i - 1] == results[i]);
            }
        }
    }
}

/// Each formula that is taken in is kept under its own name among those that are being
/// fetched, and the formulas of all other names stay as they are.
pub proof fn law_formulas_are_kept_by_name(q: QueueView, formulas: Seq<FormulaView>)
    requires
        q.batch.no_duplicates(),
        formulas.len() <= q.batch.len(),
    ensures
        ({
            let r = all_accepted(q, formulas);
            &&& r.root == q.root
            &&& r.fetched == q.fetched
            &&& r.batch == q.batch.skip(formulas.len() as int)
            &&& forall|i: int|
                0 <= i < formulas.len() ==> r.formulas.contains_key(#[trigger] q.batch[i])
                    && r.formulas[q.batch[i]] == formulas[i]
            &&& forall|n: Seq<char>|
                !q.batch.take(formulas.len() as int).contains(n) ==> (
                #[trigger] r.formulas.contains_key(n) <==> q.formulas.contains_key(n)) && (
                q.formulas.contains_key(n) ==> r.formulas[n] == q.formulas[n])
        }),
    decreases formulas.len(),
{
    let r = all_accepted(q, formulas);
    if formulas.len() == 0 {
        assert(q.batch.skip(0) =~= q.batch);
    } else {
        let less = formulas.drop_last();
        let last = formulas.len() - 1;
        law_formulas_are_kept_by_name(q, less);
        let before = all_accepted(q, less);
        assert(before.batch[0] == q.batch[last]);
        assert(before.batch.skip(1) =~= q.batch.skip(formulas.len() as int));
        assert forall|i: int| 0 <= i < formulas.len() implies r.formulas.contains_key(
            #[trigger] q.batch[i],
        ) && r.formulas[q.batch[i]] == formulas[i] by {
            if i < last {
                assert(before.formulas[q.batch[i]] == less[i]);
                assert(q.batch[i] != q.batch[last]);
            }
        }
        assert forall|n: Seq<char>|
            !q.batch.take(formulas.len() as int).contains(n) implies (
        #[trigger] r.formulas.contains_key(n) <==> q.formulas.contains_key(n)) && (
        q.formulas.contains_key(n) ==> r.formulas[n] == q.formulas[n]) by {
            let taken = q.batch.take(formulas.len() as int);
            assert(taken[last] == q.batch[last]);
            if q.batch.take(last).contains(n) {
                let i = choose|i: int| 0 <= i < last && q.batch.take(last)[i] == n;
                assert(taken[i] == n);
            }
            assert(before.formulas.contains_key(n) <==> q.formulas.contains_key(n));
        }
    }
}

/// A dependency is queued behind the others if and only if it was neither fetched nor
/// queued, and what is queued stays.
pub proof fn law_dependency_is_queued_once(
    to_fetch: Seq<Seq<char>>,
    fetched: Seq<Seq<char>>,
    deps: Seq<Seq<char>>,
    d: Seq<char>,
)
    ensures
        ({
            let before = queued(to_fetch, fetched, deps);
            let now = queued(to_fetch, fetched, deps.push(d));
            &&& fetched.contains(d) || before.contains(d) ==> now == before
            &&& !fetched.contains(d) && !before.contains(d) ==> now == before.push(d)
        }),
        queued(to_fetch, fetched, Seq::empty()) == to_fetch,
{
    assert(deps.push(d).drop_last() =~= deps);
}

/// What is to be fetched after a formula is what was to be fetched, and every dependency of
/// the formula that was not fetched before: each name once, and nothing else.
pub proof fn law_dependencies_are_queued(q: QueueView, formula: FormulaView)
    requires
        queue_holds(q),
    ensures
        ({
            let r = accepted(q, formula);
            &&& r.to_fetch.no_duplicates()
            &&& q.to_fetch.is_prefix_of(r.to_fetch)
            &&& r.to_fetch == queued(q.to_fetch, q.fetched, formula.dependencies)
            &&& forall|n: Seq<char>| #[trigger]
                r.to_fetch.contains(n) <==> q.to_fetch.contains(n) || (
                formula.dependencies.contains(n) && !q.fetched.contains(n))
        }),
{
    lemma_queued(q.to_fetch, q.fetched, formula.dependencies);
    lemma_queued_behind(q.to_fetch, q.fetched, formula.dependencies);
}

proof fn lemma_queued_behind(to_fetch: Seq<Seq<char>>, fetched: Seq<Seq<char>>, deps: Seq<Seq<char>>)
    ensures
        to_fetch.is_prefix_of(queued(to_fetch, fetched, deps)),
    decreases deps.len(),
{
    if deps.len() > 0 {
        lemma_queued_behind(to_fetch, fetched, deps.drop_last());
    }
}

/// Formulas are taken in one after the other, in their order.
pub proof fn law_formulas_are_taken_in_order(
    q: QueueView,
    formulas: Seq<FormulaView>,
    formula: FormulaView,
)
    ensures
        all_accepted(q, Seq::empty()) == q,
        all_accepted(q, formulas.push(formula)) == accepted(all_accepted(q, formulas), formula),
        accepted(q, formula).formulas == q.formulas.insert(q.batch[0], formula),
        accepted(q, formula).batch == q.batch.skip(1),
        accepted(q, formula).fetched == q.fetched,
        accepted(q, formula).root == q.root,
{
    assert(formulas.push(formula).drop_last() =~= formulas);
}

/// Starting to fetch moves all that is queued to what is being fetched, and counts it as
/// fetched.
pub proof fn law_all_queued_are_fetched(q: QueueView)
    ensures
        fetching(q).batch == q.to_fetch,
        fetching(q).to_fetch.len() == 0,
        fetching(q).fetched == q.fetched + q.to_fetch,
        fetching(q).formulas == q.formulas,
        fetching(q).root == q.root,
{
}

impl FetchQueue {
    pub closed spec fn view(&self) -> QueueView {
        QueueView {
            root: self.root@,
            formulas: formula_views(self.formulas@),
            fetched: texts(self.fetched@),
            to_fetch: texts(self.to_fetch@),
            batch: texts(self.batch@),
        }
    }

    /// The queue for a formula: it alone is to be fetched.
    pub fn new(name: &str) -> (r: Self)
        ensures
            r@ == queue_for(name@),
            r@.root == name@,
            r@.to_fetch == seq![name@],
            r@.fetched.len() == 0 && r@.batch.len() == 0,
            forall|n: Seq<char>| !#[trigger] r@.formulas.contains_key(n),
            queue_holds(r@),
    {
        let mut to_fetch: Vec<String> = Vec::new();
        to_fetch.push(name.to_owned());
        let r = Self {
            root: name.to_owned(),
            formulas: TextMap::new(),
            fetched: Vec::new(),
            to_fetch,
            batch: Vec::new(),
        };
        proof {
            assert(r@ =~~= queue_for(name@));
            law_queue_starts(name@);
        }
        r
    }

    /// The names to fetch now, none of which was fetched before; none, once
    /// everything was fetched.
    pub fn next_batch(&mut self) -> (r: Vec<String>)
        requires
            queue_holds(old(self)@),
            old(self)@.batch.len() == 0,
        ensures
            texts(r@) == old(self)@.to_fetch,
            texts(r@).no_duplicates(),
            forall|n: Seq<char>| #[trigger]
                texts(r@).contains(n) ==> !old(self)@.fetched.contains(n),
            final(self)@ == fetching(old(self)@),
            final(self)@.batch == old(self)@.to_fetch,
            final(self)@.to_fetch.len() == 0,
            final(self)@.fetched == old(self)@.fetched + old(self)@.to_fetch,
            final(self)@.formulas == old(self)@.formulas,
            final(self)@.root == old(self)@.root,
            queue_holds(final(self)@),
    {
        let mut batch: Vec<String> = Vec::new();
        std::mem::swap(&mut batch, &mut self.to_fetch);
        let names = copy_texts(&batch);
        let mut i: usize = 0;
        let ghost start = texts(self.fetched@);
        let ghost before = *self;
        proof {
            law_fetching_keeps(old(self)@);
            assert(start =~= start + texts(batch@).take(0));
        }
        while i < batch.len()
            invariant
                i <= batch.len(),
                texts(self.fetched@) == start + texts(batch@).take(i as int),
                self.root == before.root,
                self.formulas == before.formulas,
                self.to_fetch == before.to_fetch,
            decreases batch.len() - i,
        {
            let ghost held = texts(self.fetched@);
            self.fetched.push(batch[i].clone());
            proof {
                assert(texts(self.fetched@) =~= held.push(batch@[i as int]@));
                assert(held.push(batch@[i as int]@) =~= start + texts(batch@).take(i + 1));
            }
            i = i + 1;
        }
        proof {
            assert(texts(batch@).take(i as int) =~= texts(batch@));
        }
        self.batch = batch;
        proof {
            assert(self@ =~~= fetching(old(self)@));
        }
        names
    }

    /// Takes in the formula of the name in position `i` of those that are being
    /// fetched.
    fn accept(&mut self, i: usize, formula: Formula)
        requires
            i < old(self)@.batch.len(),
        ensures
            final(self)@ == (QueueView {
                formulas: old(self)@.formulas.insert(old(self)@.batch[i as int], formula@),
                to_fetch: queued(
                    old(self)@.to_fetch,
                    old(self)@.fetched,
                    formula@.dependencies,
                ),
                ..old(self)@
            }),
    {
        queue(&mut self.to_fetch, &self.fetched, &formula.dependencies);
        let name = self.batch[i].clone();
        self.formulas.insert(name, formula);
        proof {
            assert(self@.formulas =~= old(self)@.formulas.insert(
                old(self)@.batch[i as int],
                formula@,
            ));
        }
    }

    /// The queue once the names that were being fetched have their formulas, in the
    /// order of the names; the first failure, where one was not fetched.
    pub fn on_results(self, results: Vec<Result<Formula, Error>>) -> (r: Result<Self, Error>)
        requires
            queue_holds(self@),
            results@.len() == self@.batch.len(),
        ensures
            match (first_failure(results@), r) {
                (None, Ok(q)) => {
                    &&& q@ == all_accepted(self@, fetched_formulas(results@))
                    &&& q@.batch.len() == 0
                    &&& queue_holds(q@)
                    &&& q@.root == self@.root
                    &&& q@.fetched == self@.fetched
                    &&& forall|i: int|
                        0 <= i < results@.len() ==> (#[trigger] results@[i]) is Ok
                            && q@.formulas.contains_key(self@.batch[i])
                            && q@.formulas[self@.batch[i]] == results@[i]->Ok_0@
                    &&& forall|n: Seq<char>|
                        !self@.batch.contains(n) ==> (#[trigger] q@.formulas.contains_key(n)
                            <==> self@.formulas.contains_key(n)) && (self@.formulas.contains_key(n)
                            ==> q@.formulas[n] == self@.formulas[n])
                },
                (Some(failure), Err(e)) => e@ == failure,
                _ => false,
            },
    {
        let mut queue = self;
        let count: usize = results.len();
        let ghost mut done: Seq<FormulaView> = Seq::empty();
        let ghost batch = self@.batch;
        let mut i: usize = 0;
        proof {
            assert(results@.skip(0) =~= results@);
            assert(batch.skip(0) =~= batch);
            assert(done + fetched_formulas(results@) =~= fetched_formulas(results@));
        }
        for result in it: results
            invariant
                it.seq() == results@,
                i == it.index(),
                results@.len() == count,
                results@.len() == batch.len(),
                queue@.batch == batch,
                batch == self@.batch,
                all_accepted(self@, done) == (QueueView { batch: batch.skip(i as int), ..queue@ }),
                queue_holds(all_accepted(self@, done)),
                first_failure(results@) == first_failure(results@.skip(i as int)),
                first_failure(results@) is None ==> fetched_formulas(results@) == done
                    + fetched_formulas(results@.skip(i as int)),
        {
            let ghost rest = results@.skip(i as int);
            proof {
                assert(rest[0] == result);
                assert(rest.skip(1) =~= results@.skip(i + 1));
            }
            match result {
                Err(e) => {
                    return Err(e);
                },
                Ok(formula) => {
                    let ghost q = all_accepted(self@, done);
                    let ghost view = formula@;
                    proof {
                        law_accepting_keeps(q, view);
                    }
                    queue.accept(i, formula);
                    proof {
                        let more = done.push(view);
                        assert(more.drop_last() =~= done);
                        assert(batch.skip(i as int).skip(1) =~= batch.skip(i + 1));
                        assert(all_accepted(self@, more) == accepted(q, view));
                        assert(done + (seq![view] + fetched_formulas(rest.skip(1))) =~= more
                            + fetched_formulas(rest.skip(1)));
                        done = more;
                    }
                },
            }
            i = i + 1;
        }
        proof {
            assert(results@.skip(i as int) =~= Seq::empty());
            assert(done + Seq::<FormulaView>::empty() =~= done);
            assert(batch.skip(i as int) =~= Seq::empty());
        }
        queue.batch = Vec::new();
        proof {
            assert(queue@ =~~= all_accepted(self@, done));
            law_no_failure_is_all_formulas(results@);
            law_formulas_are_kept_by_name(self@, done);
        }
        Ok(queue)
    }

    /// The formulas that were fetched: the one that was asked for, and all that it
    /// needs.
    pub fn finish(self) -> (r: TextMap<Formula>)
        requires
            queue_holds(self@),
            self@.to_fetch.len() == 0,
            self@.batch.len() == 0,
        ensures
            formula_views(r@) == self@.formulas,
            is_closure(self@.formulas, self@.root),
            forall|n: Seq<char>| #[trigger]
                r@.contains_key(n) <==> self@.formulas.contains_key(n),
            forall|n: Seq<char>| #[trigger] r@.contains_key(n) ==> r@[n]@ == self@.formulas[n],
    {
        proof {
            law_finished_queue_is_closed(self@);
        }
        self.formulas
    }
}

} // verus!
