//! Reconciliation: from the names that are held locally and the names that
//! the remote store lists, which files to fetch and which to push.
//!
//! Presence is the only signal. A name that one side holds and the other does
//! not is transferred; nothing is compared and nothing is ever removed. The
//! local names that count are those that belong to the collection. The remote
//! names that count are those that the remote store lists, of which `meta`
//! takes only those that belong to it.

use crate::collection::{Collection, Scope};
use crate::listing::{views, FileSet};
use crate::names::is_hidden;
use crate::text::has_suffix;
use vstd::prelude::*;

verus! {

/// The names of `names` that belong to the collection.
pub open spec fn belonging(names: Set<Seq<char>>, scope: Scope) -> Set<Seq<char>> {
    Set::new(|name: Seq<char>| names.contains(name) && scope.accepts(name))
}

/// The names of a remote listing that a pass goes by: all that the remote
/// store lists, except for `meta`, which goes by those that belong to it.
pub open spec fn listed(remote: Set<Seq<char>>, scope: Scope) -> Set<Seq<char>> {
    if scope is Meta {
        belonging(remote, scope)
    } else {
        remote
    }
}

/// The names to fetch: the listed names that are not among the local names
/// that belong to the collection.
pub open spec fn to_download(scope: Scope, local: Set<Seq<char>>, remote: Set<Seq<char>>) -> Set<
    Seq<char>,
> {
    listed(remote, scope).difference(belonging(local, scope))
}

/// The names to push: the local names that belong to the collection and are
/// not listed; none for a collection that is only ever fetched.
pub open spec fn to_upload(scope: Scope, local: Set<Seq<char>>, remote: Set<Seq<char>>) -> Set<
    Seq<char>,
> {
    if scope.uploads() {
        belonging(local, scope).difference(listed(remote, scope))
    } else {
        Set::<Seq<char>>::empty()
    }
}

/// What one pass over a collection transfers.
#[derive(Debug)]
pub struct SyncPlan {
    pub to_download: Vec<String>,
    pub to_upload: Vec<String>,
}

/// `plan` is the plan for these names: it names each file to transfer once.
pub open spec fn is_plan_for(
    plan: &SyncPlan,
    scope: Scope,
    local: Set<Seq<char>>,
    remote: Set<Seq<char>>,
) -> bool {
    &&& views(plan.to_download@).no_duplicates()
    &&& views(plan.to_download@).to_set() == to_download(scope, local, remote)
    &&& views(plan.to_upload@).no_duplicates()
    &&& views(plan.to_upload@).to_set() == to_upload(scope, local, remote)
}

/// The set of the names in `names` that belong to `collection`.
pub fn collect_names(collection: &Collection, names: &Vec<String>) -> (files: FileSet)
    ensures
        files.wf(),
        files@ == belonging(views(names@).to_set(), collection@),
{
    let ghost all = views(names@);
    let mut files = FileSet::new();
    let mut i: usize = 0;
    proof {
        assert(files@ =~= belonging(all.take(0).to_set(), collection@));
    }
    while i < names.len()
        invariant
            i <= names.len(),
            all == views(names@),
            files.wf(),
            files@ == belonging(all.take(i as int).to_set(), collection@),
        decreases names.len() - i,
    {
        let ghost prefix = all.take(i as int);
        let ghost name = names@[i as int]@;
        let ghost before = files@;
        proof {
            assert(all[i as int] == name);
            assert(all.take(i + 1) =~= prefix.push(name));
            prefix.lemma_push_to_set_commute(name);
        }
        if collection.accepts_name(names[i].as_str()) {
            files.insert(names[i].clone());
            assert(files@ =~= belonging(all.take(i + 1).to_set(), collection@));
        } else {
            assert(before =~= belonging(all.take(i + 1).to_set(), collection@));
        }
        i += 1;
    }
    proof {
        assert(all.take(i as int) =~= all);
    }
    files
}

/// The names of `files` that belong to `collection`.
pub fn restrict(collection: &Collection, files: &FileSet) -> (out: FileSet)
    requires
        files.wf(),
    ensures
        out.wf(),
        out@ == belonging(files@, collection@),
{
    let names = files.to_vec();
    collect_names(collection, &names)
}

/// The plan for the local names `here` and the listed names `there`.
fn plan_between(collection: &Collection, here: &FileSet, there: &FileSet) -> (plan: SyncPlan)
    requires
        here.wf(),
        there.wf(),
    ensures
        views(plan.to_download@).no_duplicates(),
        views(plan.to_download@).to_set() == there@.difference(here@),
        views(plan.to_upload@).no_duplicates(),
        views(plan.to_upload@).to_set() == if collection@.uploads() {
            here@.difference(there@)
        } else {
            Set::<Seq<char>>::empty()
        },
{
    let to_download = there.difference(here);
    let to_upload = if collection.allows_upload() {
        here.difference(there)
    } else {
        let none: Vec<String> = Vec::new();
        assert(views(none@) =~= Seq::<Seq<char>>::empty());
        assert(views(none@).to_set() =~= Set::<Seq<char>>::empty());
        none
    };
    SyncPlan { to_download, to_upload }
}

/// Plans one pass over `collection`, given the names held locally and the
/// names that the remote store lists.
///
/// Local names that do not belong to the collection are ignored. Every listed
/// name that is not among the rest is fetched; for `meta`, listed names that
/// do not belong to it are ignored as well.
pub fn reconcile(collection: &Collection, local: &FileSet, remote: &FileSet) -> (plan: SyncPlan)
    requires
        local.wf(),
        remote.wf(),
    ensures
        is_plan_for(&plan, collection@, local@, remote@),
{
    let here = restrict(collection, local);
    let filters_listing = match collection {
        Collection::Meta => true,
        _ => false,
    };
    if filters_listing {
        let there = restrict(collection, remote);
        plan_between(collection, &here, &there)
    } else {
        plan_between(collection, &here, remote)
    }
}

/// A pass that transfers all it planned leaves both sides with the same
/// names, and takes none away: the local side then holds what it held and
/// what was fetched, which is the union of both sides, and so does the remote
/// side of a collection that is pushed.
pub proof fn lemma_reconcile_converges(scope: Scope, local: Set<Seq<char>>, remote: Set<Seq<char>>)
    ensures
        belonging(local, scope).union(to_download(scope, local, remote)) == belonging(
            local,
            scope,
        ).union(listed(remote, scope)),
        scope.uploads() ==> listed(remote, scope).union(to_upload(scope, local, remote))
            == belonging(local, scope).union(listed(remote, scope)),
        belonging(local, scope).subset_of(
            belonging(local, scope).union(to_download(scope, local, remote)),
        ),
        listed(remote, scope).subset_of(
            listed(remote, scope).union(to_upload(scope, local, remote)),
        ),
        to_download(scope, local, remote).disjoint(belonging(local, scope)),
        to_upload(scope, local, remote).disjoint(listed(remote, scope)),
{
    let here = belonging(local, scope);
    let there = listed(remote, scope);
    assert(here.union(to_download(scope, local, remote)) =~= here.union(there));
    if scope.uploads() {
        assert(there.union(to_upload(scope, local, remote)) =~= here.union(there));
    }
}

/// Once both sides hold the same names, a pass has nothing left to push. It
/// has nothing left to fetch either, where every listed name belongs to the
/// collection: a listed name that does not belong to `anga` or to a
/// sub-directory of `words` is never among the local names, and is fetched by
/// every pass.
pub proof fn lemma_reconciled_plan_is_empty(scope: Scope, names: Set<Seq<char>>)
    ensures
        to_upload(scope, names, names) == Set::<Seq<char>>::empty(),
        (forall|name: Seq<char>| names.contains(name) ==> scope.accepts(name)) ==> to_download(
            scope,
            names,
            names,
        ) == Set::<Seq<char>>::empty(),
        to_download(scope, names, names) == Set::new(
            |name: Seq<char>| listed(names, scope).contains(name) && !scope.accepts(name),
        ),
{
    assert(to_upload(scope, names, names) =~= Set::<Seq<char>>::empty());
    assert(to_download(scope, names, names) =~= Set::new(
        |name: Seq<char>| listed(names, scope).contains(name) && !scope.accepts(name),
    ));
    if forall|name: Seq<char>| names.contains(name) ==> scope.accepts(name) {
        assert(to_download(scope, names, names) =~= Set::<Seq<char>>::empty());
    }
}

/// A local name that does not belong to a collection is ignored: it is never
/// pushed, and the plan is the same with and without it. For `meta` the same
/// holds of a listed name: it is never fetched, and the plan is the same with
/// and without it.
pub proof fn lemma_foreign_name_is_ignored(
    scope: Scope,
    local: Set<Seq<char>>,
    remote: Set<Seq<char>>,
    name: Seq<char>,
)
    requires
        !scope.accepts(name),
    ensures
        !to_upload(scope, local, remote).contains(name),
        to_download(scope, local.insert(name), remote) == to_download(scope, local, remote),
        to_upload(scope, local.insert(name), remote) == to_upload(scope, local, remote),
        scope is Meta ==> !to_download(scope, local, remote).contains(name),
        scope is Meta ==> to_download(scope, local, remote.insert(name)) == to_download(
            scope,
            local,
            remote,
        ),
        scope is Meta ==> to_upload(scope, local, remote.insert(name)) == to_upload(
            scope,
            local,
            remote,
        ),
{
    assert(belonging(local.insert(name), scope) =~= belonging(local, scope));
    if scope is Meta {
        assert(belonging(remote.insert(name), scope) =~= belonging(remote, scope));
    }
}

/// A listed name that the local names lack is fetched, whatever it looks
/// like, unless the collection is `meta` and the name does not belong to it.
pub proof fn lemma_listed_name_is_fetched(
    scope: Scope,
    local: Set<Seq<char>>,
    remote: Set<Seq<char>>,
    name: Seq<char>,
)
    requires
        remote.contains(name),
        !local.contains(name),
        !(scope is Meta) || scope.accepts(name),
    ensures
        to_download(scope, local, remote).contains(name),
{
}

/// The metadata collection takes `.toml` files that are not hidden, and no
/// others: a name that starts with a dot or lacks the suffix does not belong.
pub proof fn lemma_meta_takes_visible_toml_only(name: Seq<char>)
    ensures
        Scope::Meta.accepts(name) <==> !is_hidden(name) && has_suffix(name, ".toml"@),
        Scope::Anga.accepts(name) <==> !is_hidden(name),
{
}

/// The text clusters are only ever fetched: whatever is held locally, the plan
/// for them pushes nothing.
pub proof fn lemma_words_never_upload(
    scope: Scope,
    local: Set<Seq<char>>,
    remote: Set<Seq<char>>,
)
    requires
        scope is Words,
    ensures
        to_upload(scope, local, remote) == Set::<Seq<char>>::empty(),
{
}

} // verus!
