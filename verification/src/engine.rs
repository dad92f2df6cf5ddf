//! The sync engine: one pass over the three collections, as a state machine.
//!
//! The engine performs no input or output. It says what to do next as a
//! `Request`; whoever drives it carries the request out and hands back what
//! came of it as an `Event`. A pass visits `anga`, then `meta`, then the
//! sub-directories of `words`. For each collection it asks for the remote
//! listing and the local file names, fetches what is missing locally, and
//! pushes what is missing remotely. A file that cannot be transferred is
//! skipped; a collection that cannot be listed is given up, and the pass goes
//! on with the next.

use crate::collection::{Collection, Scope};
use crate::listing::{listing_names, parse_server_file_listing, views, FileSet};
use crate::names::{mime_type, mime_type_for};
use crate::reconcile::{collect_names, reconcile, to_download, to_upload, SyncPlan};
use crate::remote::{
    classify_status, download_url, download_url_of, is_upload_accepted, listing_url,
    listing_url_of, status_class, upload_accepted, upload_url, upload_url_of, words_index_url,
    words_index_url_of, StatusClass,
};
use vstd::prelude::*;

verus! {

/// What the engine is waiting for.
#[derive(Clone, Copy, Debug, PartialEq, Eq, Structural)]
pub enum Phase {
    /// The remote listing of the current collection.
    Listing,
    /// The names of the local files of the current collection.
    Scanning,
    /// The content of the next file to fetch.
    Fetching,
    /// The news that the fetched file was written.
    Storing,
    /// The content of the next file to push.
    Loading,
    /// The answer to the push.
    Pushing,
    /// The listing of the sub-directories of `words`.
    Indexing,
    /// Nothing: the pass is over.
    Done,
}

/// Why a collection was given up.
#[derive(Clone, Copy, Debug, PartialEq, Eq, Structural)]
pub enum PassFailure {
    /// The remote store gave no answer.
    Unreachable,
    /// The remote store answered the listing request with this status.
    Status(u16),
    /// The local directory could not be read.
    LocalScan,
}

/// How many files were transferred.
#[derive(Clone, Copy, Debug, PartialEq, Eq, Structural)]
pub struct SyncCounts {
    pub downloaded: usize,
    pub uploaded: usize,
}

/// What became of one collection.
#[derive(Clone, Copy, Debug)]
pub struct PassReport {
    pub counts: SyncCounts,
    pub failure: Option<PassFailure>,
}

/// What became of a pass.
#[derive(Clone, Copy, Debug)]
pub struct SyncReport {
    pub anga: PassReport,
    pub meta: PassReport,
    pub words: PassReport,
}

/// What the driver is asked to do.
#[derive(Debug)]
pub enum Request {
    /// Get `url` with the account's credentials; answer with `Event::Listing`.
    GetListing { url: String },
    /// Name the regular files in the directory of `collection`, none if there
    /// is no such directory; answer with `Event::LocalFiles`.
    ScanLocal { collection: Collection },
    /// Get `url` with the account's credentials; answer with `Event::File`.
    GetFile { url: String },
    /// Write `content` to `filename` in the directory of `collection`, which is
    /// made if need be; answer with `Event::Stored`.
    StoreFile { collection: Collection, filename: String, content: Vec<u8> },
    /// Read `filename` in the directory of `collection`; answer with
    /// `Event::Loaded`.
    LoadFile { collection: Collection, filename: String },
    /// Post `content` to `url` as the part `file` of a multipart form, under
    /// the name `filename` and the media type `mime`; answer with
    /// `Event::Posted`.
    PostFile { url: String, filename: String, mime: String, content: Vec<u8> },
    /// Nothing more: the pass is over.
    Finish,
}

/// What came of a request. `Failed` answers any request that could not be
/// carried out.
#[derive(Debug)]
pub enum Event {
    Listing { status: u16, body: String },
    LocalFiles(Vec<String>),
    File { status: u16, content: Vec<u8> },
    Stored,
    Loaded(Vec<u8>),
    Posted { status: u16 },
    Failed,
}

/// The state of a pass as a mathematical value.
pub struct EngineState {
    pub server: Seq<char>,
    pub email: Seq<char>,
    pub phase: Phase,
    /// The collection that is being visited.
    pub scope: Scope,
    /// What the remote store lists for the collection, while the local names
    /// are awaited.
    pub remote: Set<Seq<char>>,
    /// The files that are still to be fetched, the next one first.
    pub downloads: Seq<Seq<char>>,
    /// The files that are still to be pushed, the next one first.
    pub uploads: Seq<Seq<char>>,
    /// The sub-directories of `words` that are still to be visited.
    pub dirs: Seq<Seq<char>>,
    pub report: SyncReport,
}

/// A counter after one more transfer. It stops at the largest value.
pub open spec fn bumped(count: usize) -> usize {
    if count < usize::MAX {
        (count + 1) as usize
    } else {
        count
    }
}

/// The report of a pass in which nothing has happened yet.
pub open spec fn empty_report() -> SyncReport {
    let none = PassReport { counts: SyncCounts { downloaded: 0, uploaded: 0 }, failure: None };
    SyncReport { anga: none, meta: none, words: none }
}

/// `report` after one more file of `scope` was fetched and written.
pub open spec fn with_download(report: SyncReport, scope: Scope) -> SyncReport {
    match scope {
        Scope::Anga => SyncReport {
            anga: PassReport {
                counts: SyncCounts { downloaded: bumped(report.anga.counts.downloaded), ..report.anga.counts },
                ..report.anga
            },
            ..report
        },
        Scope::Meta => SyncReport {
            meta: PassReport {
                counts: SyncCounts { downloaded: bumped(report.meta.counts.downloaded), ..report.meta.counts },
                ..report.meta
            },
            ..report
        },
        Scope::Words(_) => SyncReport {
            words: PassReport {
                counts: SyncCounts { downloaded: bumped(report.words.counts.downloaded), ..report.words.counts },
                ..report.words
            },
            ..report
        },
    }
}

/// `report` after one more file of `scope` was pushed.
pub open spec fn with_upload(report: SyncReport, scope: Scope) -> SyncReport {
    match scope {
        Scope::Anga => SyncReport {
            anga: PassReport {
                counts: SyncCounts { uploaded: bumped(report.anga.counts.uploaded), ..report.anga.counts },
                ..report.anga
            },
            ..report
        },
        Scope::Meta => SyncReport {
            meta: PassReport {
                counts: SyncCounts { uploaded: bumped(report.meta.counts.uploaded), ..report.meta.counts },
                ..report.meta
            },
            ..report
        },
        Scope::Words(_) => SyncReport {
            words: PassReport {
                counts: SyncCounts { uploaded: bumped(report.words.counts.uploaded), ..report.words.counts },
                ..report.words
            },
            ..report
        },
    }
}

/// `report` after `scope` was given up. A sub-directory of `words` that
/// cannot be listed is passed over without a mark.
pub open spec fn with_failure(report: SyncReport, scope: Scope, failure: PassFailure) -> SyncReport {
    match scope {
        Scope::Anga => SyncReport {
            anga: PassReport { failure: Some(failure), ..report.anga },
            ..report
        },
        Scope::Meta => SyncReport {
            meta: PassReport { failure: Some(failure), ..report.meta },
            ..report
        },
        Scope::Words(_) => report,
    }
}

/// `report` after the sub-directories of `words` could not be listed.
pub open spec fn with_index_failure(report: SyncReport, failure: PassFailure) -> SyncReport {
    SyncReport { words: PassReport { failure: Some(failure), ..report.words }, ..report }
}

/// `names` holds each member of `set` once, and nothing else.
pub open spec fn is_ordering(names: Seq<Seq<char>>, set: Set<Seq<char>>) -> bool {
    names.no_duplicates() && names.to_set() == set
}

/// `post` has just turned to `scope`, or to the end of the pass, with nothing
/// planned.
pub open spec fn enters(
    post: EngineState,
    phase: Phase,
    scope: Scope,
    dirs: Seq<Seq<char>>,
    report: SyncReport,
) -> bool {
    &&& post.phase == phase
    &&& post.scope == scope
    &&& post.dirs == dirs
    &&& post.report == report
    &&& post.remote == Set::<Seq<char>>::empty()
    &&& post.downloads == Seq::<Seq<char>>::empty()
    &&& post.uploads == Seq::<Seq<char>>::empty()
}

/// `post` is in the middle of the transfers of `scope`.
pub open spec fn transfers(
    post: EngineState,
    phase: Phase,
    scope: Scope,
    dirs: Seq<Seq<char>>,
    downloads: Seq<Seq<char>>,
    uploads: Seq<Seq<char>>,
    report: SyncReport,
) -> bool {
    &&& post.phase == phase
    &&& post.scope == scope
    &&& post.dirs == dirs
    &&& post.report == report
    &&& post.remote == Set::<Seq<char>>::empty()
    &&& post.downloads == downloads
    &&& post.uploads == uploads
}

/// `post` has turned to the next sub-directory of `words`, or to the end of
/// the pass where none is left.
pub open spec fn turns_to_next_dir(
    scope: Scope,
    dirs: Seq<Seq<char>>,
    report: SyncReport,
    post: EngineState,
) -> bool {
    if dirs.len() > 0 {
        enters(post, Phase::Listing, Scope::Words(dirs.first()), dirs.drop_first(), report)
    } else {
        enters(post, Phase::Done, scope, Seq::<Seq<char>>::empty(), report)
    }
}

/// `post` has left `scope` behind: `meta` follows `anga`, the index of
/// `words` follows `meta`, and a sub-directory of `words` is followed by the
/// next.
pub open spec fn leaves(
    scope: Scope,
    dirs: Seq<Seq<char>>,
    report: SyncReport,
    post: EngineState,
) -> bool {
    match scope {
        Scope::Anga => enters(
            post,
            Phase::Listing,
            Scope::Meta,
            Seq::<Seq<char>>::empty(),
            report,
        ),
        Scope::Meta => enters(
            post,
            Phase::Indexing,
            Scope::Meta,
            Seq::<Seq<char>>::empty(),
            report,
        ),
        Scope::Words(_) => turns_to_next_dir(scope, dirs, report, post),
    }
}

/// `post` goes on with what is left to transfer: first the files to fetch,
/// then the files to push, then the next collection.
pub open spec fn continues(
    scope: Scope,
    dirs: Seq<Seq<char>>,
    downloads: Seq<Seq<char>>,
    uploads: Seq<Seq<char>>,
    report: SyncReport,
    post: EngineState,
) -> bool {
    if downloads.len() > 0 {
        transfers(post, Phase::Fetching, scope, dirs, downloads, uploads, report)
    } else if uploads.len() > 0 {
        transfers(post, Phase::Loading, scope, dirs, downloads, uploads, report)
    } else {
        leaves(scope, dirs, report, post)
    }
}

/// `post` has planned the transfers of `pre.scope` from the local names and
/// goes on with them. The plan fetches each name that is listed remotely and
/// not held locally, and pushes each name for which it is the other way
/// round, where the collection is one that is pushed; the order in which it
/// does so is left open.
pub open spec fn plans(pre: EngineState, local: Set<Seq<char>>, post: EngineState) -> bool {
    exists|downloads: Seq<Seq<char>>, uploads: Seq<Seq<char>>|
        {
            &&& is_ordering(downloads, to_download(pre.scope, local, pre.remote))
            &&& is_ordering(uploads, to_upload(pre.scope, local, pre.remote))
            &&& #[trigger] continues(pre.scope, pre.dirs, downloads, uploads, pre.report, post)
        }
}

/// `post` visits the sub-directories that the index names, each once, in some
/// order.
pub open spec fn indexes(pre: EngineState, listed: Set<Seq<char>>, post: EngineState) -> bool {
    exists|dirs: Seq<Seq<char>>|
        is_ordering(dirs, listed) && #[trigger] turns_to_next_dir(
            pre.scope,
            dirs,
            pre.report,
            post,
        )
}

/// The transitions of the engine: `post` is the state that follows `pre` when
/// `event` comes in.
pub open spec fn advances(pre: EngineState, event: &Event, post: EngineState) -> bool {
    &&& post.server == pre.server
    &&& post.email == pre.email
    &&& match pre.phase {
        Phase::Listing => {
            if let Event::Listing { status, body } = event {
                if status_class(*status) == StatusClass::Success {
                    &&& post.phase == Phase::Scanning
                    &&& post.scope == pre.scope
                    &&& post.dirs == pre.dirs
                    &&& post.report == pre.report
                    &&& post.remote == listing_names(body@)
                    &&& post.downloads == Seq::<Seq<char>>::empty()
                    &&& post.uploads == Seq::<Seq<char>>::empty()
                } else {
                    leaves(
                        pre.scope,
                        pre.dirs,
                        with_failure(pre.report, pre.scope, PassFailure::Status(*status)),
                        post,
                    )
                }
            } else {
                leaves(
                    pre.scope,
                    pre.dirs,
                    with_failure(pre.report, pre.scope, PassFailure::Unreachable),
                    post,
                )
            }
        },
        Phase::Scanning => {
            if let Event::LocalFiles(names) = event {
                plans(pre, views(names@).to_set(), post)
            } else {
                leaves(
                    pre.scope,
                    pre.dirs,
                    with_failure(pre.report, pre.scope, PassFailure::LocalScan),
                    post,
                )
            }
        },
        Phase::Fetching => {
            if event matches Event::File { status, content } && status_class(*status)
                == StatusClass::Success {
                transfers(
                    post,
                    Phase::Storing,
                    pre.scope,
                    pre.dirs,
                    pre.downloads,
                    pre.uploads,
                    pre.report,
                )
            } else {
                continues(
                    pre.scope,
                    pre.dirs,
                    pre.downloads.drop_first(),
                    pre.uploads,
                    pre.report,
                    post,
                )
            }
        },
        Phase::Storing => {
            continues(
                pre.scope,
                pre.dirs,
                pre.downloads.drop_first(),
                pre.uploads,
                if event is Stored {
                    with_download(pre.report, pre.scope)
                } else {
                    pre.report
                },
                post,
            )
        },
        Phase::Loading => {
            if event is Loaded {
                transfers(
                    post,
                    Phase::Pushing,
                    pre.scope,
                    pre.dirs,
                    pre.downloads,
                    pre.uploads,
                    pre.report,
                )
            } else {
                continues(
                    pre.scope,
                    pre.dirs,
                    pre.downloads,
                    pre.uploads.drop_first(),
                    pre.report,
                    post,
                )
            }
        },
        Phase::Pushing => {
            continues(
                pre.scope,
                pre.dirs,
                pre.downloads,
                pre.uploads.drop_first(),
                if event matches Event::Posted { status } && upload_accepted(*status) {
                    with_upload(pre.report, pre.scope)
                } else {
                    pre.report
                },
                post,
            )
        },
        Phase::Indexing => {
            if let Event::Listing { status, body } = event {
                if status_class(*status) == StatusClass::Success {
                    indexes(pre, listing_names(body@), post)
                } else {
                    enters(
                        post,
                        Phase::Done,
                        pre.scope,
                        Seq::<Seq<char>>::empty(),
                        with_index_failure(pre.report, PassFailure::Status(*status)),
                    )
                }
            } else {
                enters(
                    post,
                    Phase::Done,
                    pre.scope,
                    Seq::<Seq<char>>::empty(),
                    with_index_failure(pre.report, PassFailure::Unreachable),
                )
            }
        },
        Phase::Done => post == pre,
    }
}

/// The bytes that an event hands on to the request that follows it.
pub open spec fn payload(event: &Event) -> Seq<u8> {
    match event {
        Event::File { status, content } => content@,
        Event::Loaded(content) => content@,
        _ => Seq::<u8>::empty(),
    }
}

/// `request` is what the engine asks for in `state`, where `carried` is the
/// payload of the event that led there.
pub open spec fn asks(state: EngineState, request: &Request, carried: Seq<u8>) -> bool {
    match state.phase {
        Phase::Listing => request matches Request::GetListing { url } && url@ == listing_url_of(
            state.server,
            state.email,
            state.scope,
        ),
        Phase::Indexing => request matches Request::GetListing { url } && url@
            == words_index_url_of(state.server, state.email),
        Phase::Scanning => request matches Request::ScanLocal { collection } && collection@
            == state.scope,
        Phase::Fetching => request matches Request::GetFile { url } && url@ == download_url_of(
            state.server,
            state.email,
            state.scope,
            state.downloads.first(),
        ),
        Phase::Storing => {
            &&& request matches Request::StoreFile { collection, filename, content }
            &&& collection@ == state.scope
            &&& filename@ == state.downloads.first()
            &&& content@ == carried
        },
        Phase::Loading => {
            &&& request matches Request::LoadFile { collection, filename }
            &&& collection@ == state.scope
            &&& filename@ == state.uploads.first()
        },
        Phase::Pushing => {
            &&& request matches Request::PostFile { url, filename, mime, content }
            &&& url@ == upload_url_of(
                state.server,
                state.email,
                state.scope,
                state.uploads.first(),
            )
            &&& filename@ == state.uploads.first()
            &&& mime@ == mime_type(state.uploads.first())
            &&& content@ == carried
        },
        Phase::Done => request is Finish,
    }
}

/// The state in which a pass starts.
pub open spec fn initial_state(server: Seq<char>, email: Seq<char>) -> EngineState {
    EngineState {
        server,
        email,
        phase: Phase::Listing,
        scope: Scope::Anga,
        remote: Set::<Seq<char>>::empty(),
        downloads: Seq::<Seq<char>>::empty(),
        uploads: Seq::<Seq<char>>::empty(),
        dirs: Seq::<Seq<char>>::empty(),
        report: empty_report(),
    }
}

/// What holds of every state that a pass goes through.
pub open spec fn consistent(state: EngineState) -> bool {
    &&& state.downloads.no_duplicates()
    &&& state.uploads.no_duplicates()
    &&& state.scope is Meta ==> forall|k: int|
        0 <= k < state.downloads.len() ==> state.scope.accepts(#[trigger] state.downloads[k])
    &&& forall|k: int| 0 <= k < state.uploads.len() ==> state.scope.accepts(#[trigger] state.uploads[k])
    &&& !state.scope.uploads() ==> state.uploads.len() == 0
    &&& !(state.scope is Words) ==> state.dirs.len() == 0
    &&& state.phase != Phase::Scanning ==> state.remote == Set::<Seq<char>>::empty()
    &&& match state.phase {
        Phase::Listing | Phase::Scanning => state.downloads.len() == 0 && state.uploads.len() == 0,
        Phase::Fetching | Phase::Storing => state.downloads.len() > 0,
        Phase::Loading | Phase::Pushing => state.downloads.len() == 0 && state.uploads.len() > 0,
        Phase::Indexing => state.scope is Meta && state.downloads.len() == 0 && state.uploads.len()
            == 0,
        Phase::Done => state.downloads.len() == 0 && state.uploads.len() == 0 && state.dirs.len()
            == 0,
    }
}

/// How far a state is from the end of the pass: the collections that are
/// left, the sub-directories that are left, the steps that are left before the
/// transfers, and the steps that the transfers still take.
pub open spec fn distance(state: EngineState) -> (nat, nat, nat, nat) {
    let stage: nat = if state.phase == Phase::Done {
        0
    } else if state.phase == Phase::Indexing {
        2
    } else {
        match state.scope {
            Scope::Anga => 4,
            Scope::Meta => 3,
            Scope::Words(_) => 1,
        }
    };
    let step: nat = match state.phase {
        Phase::Listing => 3,
        Phase::Scanning => 2,
        Phase::Done => 0,
        _ => 1,
    };
    let pending: nat = if state.phase == Phase::Storing || state.phase == Phase::Pushing {
        (2 * (state.downloads.len() + state.uploads.len()) - 1) as nat
    } else {
        2 * (state.downloads.len() + state.uploads.len())
    };
    (stage, state.dirs.len(), step, pending)
}

/// `a` comes before `b` in the lexicographic order.
pub open spec fn nearer(a: (nat, nat, nat, nat), b: (nat, nat, nat, nat)) -> bool {
    ||| a.0 < b.0
    ||| a.0 == b.0 && a.1 < b.1
    ||| a.0 == b.0 && a.1 == b.1 && a.2 < b.2
    ||| a.0 == b.0 && a.1 == b.1 && a.2 == b.2 && a.3 < b.3
}

/// A pass starts in a consistent state.
pub proof fn lemma_initial_state_is_consistent(server: Seq<char>, email: Seq<char>)
    ensures
        consistent(initial_state(server, email)),
{
}

proof fn lemma_drop_first_keeps(names: Seq<Seq<char>>, scope: Scope)
    requires
        names.len() > 0,
        names.no_duplicates(),
    ensures
        names.drop_first().no_duplicates(),
        (forall|k: int| 0 <= k < names.len() ==> scope.accepts(#[trigger] names[k])) ==> (forall|
            k: int,
        |
            0 <= k < names.drop_first().len() ==> scope.accepts(#[trigger] names.drop_first()[k])),
{
    let rest = names.drop_first();
    assert forall|i: int, j: int| 0 <= i < rest.len() && 0 <= j < rest.len() && i != j implies rest[i]
        != rest[j] by {
        assert(rest[i] == names[i + 1]);
        assert(rest[j] == names[j + 1]);
    }
    if forall|k: int| 0 <= k < names.len() ==> scope.accepts(#[trigger] names[k]) {
        assert forall|k: int| 0 <= k < rest.len() implies scope.accepts(#[trigger] rest[k]) by {
            assert(rest[k] == names[k + 1]);
        }
    }
}

proof fn lemma_ordering_belongs(
    names: Seq<Seq<char>>,
    scope: Scope,
    local: Set<Seq<char>>,
    remote: Set<Seq<char>>,
)
    requires
        is_ordering(names, to_upload(scope, local, remote)) || (scope is Meta && is_ordering(
            names,
            to_download(scope, local, remote),
        )),
    ensures
        forall|k: int| 0 <= k < names.len() ==> scope.accepts(#[trigger] names[k]),
{
    assert forall|k: int| 0 <= k < names.len() implies scope.accepts(#[trigger] names[k]) by {
        assert(names.to_set().contains(names[k]));
    }
}

/// Every event leaves the engine in a consistent state.
pub proof fn lemma_advances_keeps_consistent(pre: EngineState, event: &Event, post: EngineState)
    requires
        consistent(pre),
        advances(pre, event, post),
    ensures
        consistent(post),
{
    match pre.phase {
        Phase::Scanning => {
            if let Event::LocalFiles(names) = event {
                let local = views(names@).to_set();
                let (downloads, uploads) = choose|downloads: Seq<Seq<char>>, uploads: Seq<Seq<char>>|
                    {
                        &&& is_ordering(downloads, to_download(pre.scope, local, pre.remote))
                        &&& is_ordering(uploads, to_upload(pre.scope, local, pre.remote))
                        &&& #[trigger] continues(
                            pre.scope,
                            pre.dirs,
                            downloads,
                            uploads,
                            pre.report,
                            post,
                        )
                    };
                if pre.scope is Meta {
                    lemma_ordering_belongs(downloads, pre.scope, local, pre.remote);
                }
                lemma_ordering_belongs(uploads, pre.scope, local, pre.remote);
                if !pre.scope.uploads() {
                    assert(uploads.len() == 0) by {
                        if uploads.len() > 0 {
                            assert(uploads.to_set().contains(uploads[0]));
                        }
                    }
                }
            }
        },
        Phase::Fetching | Phase::Storing => {
            lemma_drop_first_keeps(pre.downloads, pre.scope);
        },
        Phase::Loading | Phase::Pushing => {
            lemma_drop_first_keeps(pre.uploads, pre.scope);
        },
        Phase::Indexing => {},
        _ => {},
    }
}

/// Every event brings the pass nearer to its end, so a pass is over after
/// finitely many events.
pub proof fn lemma_advances_comes_nearer(pre: EngineState, event: &Event, post: EngineState)
    requires
        consistent(pre),
        advances(pre, event, post),
        pre.phase != Phase::Done,
    ensures
        nearer(distance(post), distance(pre)),
{
    match pre.phase {
        Phase::Scanning => {
            if let Event::LocalFiles(names) = event {
                let local = views(names@).to_set();
                let (downloads, uploads) = choose|downloads: Seq<Seq<char>>, uploads: Seq<Seq<char>>|
                    {
                        &&& is_ordering(downloads, to_download(pre.scope, local, pre.remote))
                        &&& is_ordering(uploads, to_upload(pre.scope, local, pre.remote))
                        &&& #[trigger] continues(
                            pre.scope,
                            pre.dirs,
                            downloads,
                            uploads,
                            pre.report,
                            post,
                        )
                    };
            }
        },
        Phase::Indexing => {
            if let Event::Listing { status, body } = event {
                if status_class(*status) == StatusClass::Success {
                    let dirs = choose|dirs: Seq<Seq<char>>|
                        is_ordering(dirs, listing_names(body@)) && #[trigger] turns_to_next_dir(
                            pre.scope,
                            dirs,
                            pre.report,
                            post,
                        );
                }
            }
        },
        _ => {},
    }
}

/// The text clusters are never pushed: while a sub-directory of `words` is
/// visited, the engine asks neither for the content of a local file nor for a
/// push, whatever the local directory holds.
pub proof fn lemma_words_are_never_pushed(state: EngineState, request: &Request, carried: Seq<u8>)
    requires
        consistent(state),
        state.scope is Words,
        asks(state, request, carried),
    ensures
        !(request is LoadFile),
        !(request is PostFile),
{
}

/// To a push, a conflict is a success: the state that follows the one is the
/// state that follows the other, and the file is counted either way.
pub proof fn lemma_conflict_counts_as_success(pre: EngineState, post: EngineState, success: u16)
    requires
        pre.phase == Phase::Pushing,
        200 <= success <= 299,
    ensures
        advances(pre, &Event::Posted { status: 409 }, post) <==> advances(
            pre,
            &Event::Posted { status: success },
            post,
        ),
        advances(pre, &Event::Posted { status: 409 }, post) ==> continues(
            pre.scope,
            pre.dirs,
            pre.downloads,
            pre.uploads.drop_first(),
            with_upload(pre.report, pre.scope),
            post,
        ),
{
}

/// A file that is pushed is one that belongs to the collection, and so is a
/// file that is fetched into `meta`. A file that is fetched into another
/// collection is any that the remote store lists.
pub proof fn lemma_requests_name_accepted_files(
    state: EngineState,
    request: &Request,
    carried: Seq<u8>,
)
    requires
        consistent(state),
        asks(state, request, carried),
    ensures
        request matches Request::StoreFile { filename, .. } ==> (state.scope is Meta
            ==> state.scope.accepts(filename@)),
        request matches Request::LoadFile { filename, .. } ==> state.scope.accepts(filename@),
        request matches Request::PostFile { filename, .. } ==> state.scope.accepts(filename@),
{
    if state.downloads.len() > 0 && state.scope is Meta {
        assert(state.scope.accepts(state.downloads[0]));
    }
    if state.uploads.len() > 0 {
        assert(state.scope.accepts(state.uploads[0]));
    }
}


/// The counts of a whole pass: the sums over the three collections, each
/// capped at the largest value of its type.
pub open spec fn total_of(report: SyncReport) -> SyncCounts {
    SyncCounts {
        downloaded: capped(
            report.anga.counts.downloaded + report.meta.counts.downloaded
                + report.words.counts.downloaded,
        ),
        uploaded: capped(
            report.anga.counts.uploaded + report.meta.counts.uploaded
                + report.words.counts.uploaded,
        ),
    }
}

/// `n`, or the largest `usize` where `n` is larger.
pub open spec fn capped(n: int) -> usize {
    if n <= usize::MAX {
        n as usize
    } else {
        usize::MAX
    }
}

fn add_capped(a: usize, b: usize) -> (sum: usize)
    ensures
        sum == capped(a + b),
{
    if a > usize::MAX - b {
        usize::MAX
    } else {
        a + b
    }
}

fn bump(count: usize) -> (next: usize)
    ensures
        next == bumped(count),
{
    if count < usize::MAX {
        count + 1
    } else {
        count
    }
}

impl SyncReport {
    /// The report of a pass in which nothing has happened yet.
    pub fn new() -> (report: SyncReport)
        ensures
            report == empty_report(),
    {
        let none = PassReport { counts: SyncCounts { downloaded: 0, uploaded: 0 }, failure: None };
        SyncReport { anga: none, meta: none, words: none }
    }

    /// The counts of the whole pass.
    pub fn total(&self) -> (counts: SyncCounts)
        ensures
            counts == total_of(*self),
    {
        SyncCounts {
            downloaded: add_capped(
                add_capped(self.anga.counts.downloaded, self.meta.counts.downloaded),
                self.words.counts.downloaded,
            ),
            uploaded: add_capped(
                add_capped(self.anga.counts.uploaded, self.meta.counts.uploaded),
                self.words.counts.uploaded,
            ),
        }
    }

    /// Whether anything was transferred.
    pub fn changed_anything(&self) -> (r: bool)
        ensures
            r == (total_of(*self).downloaded > 0 || total_of(*self).uploaded > 0),
    {
        let total = self.total();
        total.downloaded > 0 || total.uploaded > 0
    }
}

/// The engine of one pass.
pub struct SyncEngine {
    server: String,
    email: String,
    phase: Phase,
    collection: Collection,
    remote: FileSet,
    downloads: Vec<String>,
    next_download: usize,
    uploads: Vec<String>,
    next_upload: usize,
    dirs: Vec<String>,
    next_dir: usize,
    report: SyncReport,
}

impl View for SyncEngine {
    type V = EngineState;

    closed spec fn view(&self) -> EngineState {
        EngineState {
            server: self.server@,
            email: self.email@,
            phase: self.phase,
            scope: self.collection@,
            remote: self.remote@,
            downloads: views(self.downloads@).subrange(
                self.next_download as int,
                self.downloads@.len() as int,
            ),
            uploads: views(self.uploads@).subrange(
                self.next_upload as int,
                self.uploads@.len() as int,
            ),
            dirs: views(self.dirs@).subrange(self.next_dir as int, self.dirs@.len() as int),
            report: self.report,
        }
    }
}

impl SyncEngine {
    /// The parts of the invariant that concern the representation.
    pub closed spec fn shaped(&self) -> bool {
        &&& self.next_download <= self.downloads.len()
        &&& self.next_upload <= self.uploads.len()
        &&& self.next_dir <= self.dirs.len()
        &&& self.remote.wf()
    }

    /// The invariant of the engine.
    pub open spec fn wf(&self) -> bool {
        self.shaped() && consistent(self@)
    }

    /// The engine at the start of a pass, and its first request: the listing
    /// of `anga`.
    pub fn new(server: &str, email: &str) -> (r: (SyncEngine, Request))
        ensures
            r.0.wf(),
            r.0@ == initial_state(server@, email@),
            asks(r.0@, &r.1, Seq::<u8>::empty()),
    {
        let engine = SyncEngine {
            server: server.to_owned(),
            email: email.to_owned(),
            phase: Phase::Listing,
            collection: Collection::Anga,
            remote: FileSet::new(),
            downloads: Vec::new(),
            next_download: 0,
            uploads: Vec::new(),
            next_upload: 0,
            dirs: Vec::new(),
            next_dir: 0,
            report: SyncReport::new(),
        };
        let url = listing_url(server, email, &engine.collection);
        proof {
            assert(engine@.downloads =~= Seq::<Seq<char>>::empty());
            assert(engine@.uploads =~= Seq::<Seq<char>>::empty());
            assert(engine@.dirs =~= Seq::<Seq<char>>::empty());
        }
        (engine, Request::GetListing { url })
    }

    /// What the pass has done so far.
    pub fn report(&self) -> (report: SyncReport)
        ensures
            report == self@.report,
    {
        self.report
    }

    /// What the engine is waiting for.
    pub fn phase(&self) -> (phase: Phase)
        ensures
            phase == self@.phase,
    {
        self.phase
    }

    /// Whether the pass is over.
    pub fn is_done(&self) -> (done: bool)
        ensures
            done == (self@.phase == Phase::Done),
    {
        match self.phase {
            Phase::Done => true,
            _ => false,
        }
    }

    fn failed(&self, failure: PassFailure) -> (report: SyncReport)
        ensures
            report == with_failure(self.report, self.collection@, failure),
    {
        let report = self.report;
        match &self.collection {
            Collection::Anga => SyncReport {
                anga: PassReport { counts: report.anga.counts, failure: Some(failure) },
                meta: report.meta,
                words: report.words,
            },
            Collection::Meta => SyncReport {
                anga: report.anga,
                meta: PassReport { counts: report.meta.counts, failure: Some(failure) },
                words: report.words,
            },
            Collection::Words(_) => report,
        }
    }

    fn index_failed(&self, failure: PassFailure) -> (report: SyncReport)
        ensures
            report == with_index_failure(self.report, failure),
    {
        let report = self.report;
        SyncReport {
            anga: report.anga,
            meta: report.meta,
            words: PassReport { counts: report.words.counts, failure: Some(failure) },
        }
    }

    fn counted(&self, download: bool) -> (report: SyncReport)
        ensures
            report == if download {
                with_download(self.report, self.collection@)
            } else {
                with_upload(self.report, self.collection@)
            },
    {
        let report = self.report;
        let (anga, meta, words) = match &self.collection {
            Collection::Anga => (true, false, false),
            Collection::Meta => (false, true, false),
            Collection::Words(_) => (false, false, true),
        };
        SyncReport {
            anga: if anga {
                Self::counted_pass(report.anga, download)
            } else {
                report.anga
            },
            meta: if meta {
                Self::counted_pass(report.meta, download)
            } else {
                report.meta
            },
            words: if words {
                Self::counted_pass(report.words, download)
            } else {
                report.words
            },
        }
    }

    fn counted_pass(pass: PassReport, download: bool) -> (out: PassReport)
        ensures
            out.failure == pass.failure,
            out.counts.downloaded == if download {
                bumped(pass.counts.downloaded)
            } else {
                pass.counts.downloaded
            },
            out.counts.uploaded == if download {
                pass.counts.uploaded
            } else {
                bumped(pass.counts.uploaded)
            },
    {
        if download {
            PassReport {
                counts: SyncCounts {
                    downloaded: bump(pass.counts.downloaded),
                    uploaded: pass.counts.uploaded,
                },
                failure: pass.failure,
            }
        } else {
            PassReport {
                counts: SyncCounts {
                    downloaded: pass.counts.downloaded,
                    uploaded: bump(pass.counts.uploaded),
                },
                failure: pass.failure,
            }
        }
    }

    /// Forgets the plan and the remote listing of the collection.
    fn clear_plan(&mut self)
        requires
            old(self).next_dir <= old(self).dirs.len(),
        ensures
            final(self).shaped(),
            final(self)@.server == old(self)@.server,
            final(self)@.email == old(self)@.email,
            final(self)@.phase == old(self)@.phase,
            final(self)@.scope == old(self)@.scope,
            final(self)@.dirs == old(self)@.dirs,
            final(self)@.report == old(self)@.report,
            final(self)@.remote == Set::<Seq<char>>::empty(),
            final(self)@.downloads == Seq::<Seq<char>>::empty(),
            final(self)@.uploads == Seq::<Seq<char>>::empty(),
            final(self).dirs == old(self).dirs,
            final(self).next_dir == old(self).next_dir,
    {
        self.remote = FileSet::new();
        self.downloads = Vec::new();
        self.next_download = 0;
        self.uploads = Vec::new();
        self.next_upload = 0;
        proof {
            assert(self@.downloads =~= Seq::<Seq<char>>::empty());
            assert(self@.uploads =~= Seq::<Seq<char>>::empty());
        }
    }

    /// Turns to the next sub-directory of `words`, or ends the pass.
    fn enter_next_dir(&mut self) -> (request: Request)
        requires
            old(self).shaped(),
            old(self)@.remote == Set::<Seq<char>>::empty(),
            old(self)@.downloads == Seq::<Seq<char>>::empty(),
            old(self)@.uploads == Seq::<Seq<char>>::empty(),
        ensures
            final(self).shaped(),
            final(self)@.server == old(self)@.server,
            final(self)@.email == old(self)@.email,
            turns_to_next_dir(
                old(self)@.scope,
                old(self)@.dirs,
                old(self)@.report,
                final(self)@,
            ),
            asks(final(self)@, &request, Seq::<u8>::empty()),
    {
        let ghost before = self@.dirs;
        if self.next_dir < self.dirs.len() {
            let name = self.dirs[self.next_dir].clone();
            self.next_dir = self.next_dir + 1;
            self.collection = Collection::Words(name);
            self.phase = Phase::Listing;
            let url = listing_url(self.server.as_str(), self.email.as_str(), &self.collection);
            proof {
                assert(self@.dirs =~= before.drop_first());
                assert(self@.scope == Scope::Words(before.first()));
            }
            Request::GetListing { url }
        } else {
            self.phase = Phase::Done;
            proof {
                assert(self@.dirs =~= Seq::<Seq<char>>::empty());
            }
            Request::Finish
        }
    }

    /// Leaves the current collection behind, with `report` as the new report.
    fn leave(&mut self, report: SyncReport) -> (request: Request)
        requires
            old(self).next_dir <= old(self).dirs.len(),
            !(old(self)@.scope is Words) ==> old(self)@.dirs.len() == 0,
        ensures
            final(self).shaped(),
            final(self)@.server == old(self)@.server,
            final(self)@.email == old(self)@.email,
            leaves(old(self)@.scope, old(self)@.dirs, report, final(self)@),
            asks(final(self)@, &request, Seq::<u8>::empty()),
    {
        self.clear_plan();
        self.report = report;
        let (anga, meta) = match &self.collection {
            Collection::Anga => (true, false),
            Collection::Meta => (false, true),
            Collection::Words(_) => (false, false),
        };
        if anga {
            self.collection = Collection::Meta;
            self.phase = Phase::Listing;
            let url = listing_url(self.server.as_str(), self.email.as_str(), &self.collection);
            proof {
                assert(self@.dirs =~= Seq::<Seq<char>>::empty());
            }
            Request::GetListing { url }
        } else if meta {
            self.phase = Phase::Indexing;
            let url = words_index_url(self.server.as_str(), self.email.as_str());
            proof {
                assert(self@.dirs =~= Seq::<Seq<char>>::empty());
            }
            Request::GetListing { url }
        } else {
            self.enter_next_dir()
        }
    }

    /// Goes on with the next transfer, with `report` as the new report.
    fn proceed(&mut self, report: SyncReport) -> (request: Request)
        requires
            old(self).shaped(),
            old(self)@.remote == Set::<Seq<char>>::empty(),
            !(old(self)@.scope is Words) ==> old(self)@.dirs.len() == 0,
        ensures
            final(self).shaped(),
            final(self)@.server == old(self)@.server,
            final(self)@.email == old(self)@.email,
            continues(
                old(self)@.scope,
                old(self)@.dirs,
                old(self)@.downloads,
                old(self)@.uploads,
                report,
                final(self)@,
            ),
            asks(final(self)@, &request, Seq::<u8>::empty()),
    {
        if self.next_download < self.downloads.len() {
            self.report = report;
            self.phase = Phase::Fetching;
            let url = download_url(
                self.server.as_str(),
                self.email.as_str(),
                &self.collection,
                self.downloads[self.next_download].as_str(),
            );
            Request::GetFile { url }
        } else if self.next_upload < self.uploads.len() {
            self.report = report;
            self.phase = Phase::Loading;
            Request::LoadFile {
                collection: self.collection.duplicate(),
                filename: self.uploads[self.next_upload].clone(),
            }
        } else {
            self.leave(report)
        }
    }

    fn on_listing(&mut self, event: Event) -> (request: Request)
        requires
            old(self).wf(),
            old(self)@.phase == Phase::Listing,
        ensures
            final(self).shaped(),
            advances(old(self)@, &event, final(self)@),
            asks(final(self)@, &request, payload(&event)),
    {
        match event {
            Event::Listing { status, body } => {
                match classify_status(status) {
                    StatusClass::Success => {
                        self.remote = parse_server_file_listing(body.as_str());
                        self.phase = Phase::Scanning;
                        proof {
                            assert(self@.downloads =~= Seq::<Seq<char>>::empty());
                            assert(self@.uploads =~= Seq::<Seq<char>>::empty());
                        }
                        Request::ScanLocal { collection: self.collection.duplicate() }
                    },
                    _ => {
                        let report = self.failed(PassFailure::Status(status));
                        self.leave(report)
                    },
                }
            },
            _ => {
                let report = self.failed(PassFailure::Unreachable);
                self.leave(report)
            },
        }
    }

    fn on_local_files(&mut self, event: Event) -> (request: Request)
        requires
            old(self).wf(),
            old(self)@.phase == Phase::Scanning,
        ensures
            final(self).shaped(),
            advances(old(self)@, &event, final(self)@),
            asks(final(self)@, &request, payload(&event)),
    {
        let ghost pre = self@;
        match event {
            Event::LocalFiles(names) => {
                let ghost held = views(names@).to_set();
                let local = collect_names(&self.collection, &names);
                let plan = reconcile(&self.collection, &local, &self.remote);
                proof {
                    assert(crate::reconcile::belonging(local@, pre.scope) =~= local@);
                    assert(to_download(pre.scope, local@, pre.remote) =~= to_download(
                        pre.scope,
                        held,
                        pre.remote,
                    ));
                    assert(to_upload(pre.scope, local@, pre.remote) =~= to_upload(
                        pre.scope,
                        held,
                        pre.remote,
                    ));
                }
                let SyncPlan { to_download: downloads, to_upload: uploads } = plan;
                let report = self.report;
                self.remote = FileSet::new();
                self.downloads = downloads;
                self.next_download = 0;
                self.uploads = uploads;
                self.next_upload = 0;
                let ghost planned_downloads = views(self.downloads@);
                let ghost planned_uploads = views(self.uploads@);
                proof {
                    assert(self@.downloads =~= planned_downloads);
                    assert(self@.uploads =~= planned_uploads);
                }
                let request = self.proceed(report);
                proof {
                    assert(is_ordering(planned_downloads, to_download(pre.scope, held, pre.remote)));
                    assert(is_ordering(planned_uploads, to_upload(pre.scope, held, pre.remote)));
                    assert(continues(
                        pre.scope,
                        pre.dirs,
                        planned_downloads,
                        planned_uploads,
                        pre.report,
                        self@,
                    ));
                }
                request
            },
            _ => {
                let report = self.failed(PassFailure::LocalScan);
                self.leave(report)
            },
        }
    }

    fn on_file(&mut self, event: Event) -> (request: Request)
        requires
            old(self).wf(),
            old(self)@.phase == Phase::Fetching,
        ensures
            final(self).shaped(),
            advances(old(self)@, &event, final(self)@),
            asks(final(self)@, &request, payload(&event)),
    {
        let ghost pre = self@;
        let fetched = match event {
            Event::File { status, content } => match classify_status(status) {
                StatusClass::Success => Some(content),
                _ => None,
            },
            _ => None,
        };
        match fetched {
            Some(content) => {
                self.phase = Phase::Storing;
                Request::StoreFile {
                    collection: self.collection.duplicate(),
                    filename: self.downloads[self.next_download].clone(),
                    content,
                }
            },
            None => {
                self.next_download = self.next_download + 1;
                proof {
                    assert(self@.downloads =~= pre.downloads.drop_first());
                }
                let report = self.report;
                self.proceed(report)
            },
        }
    }

    fn on_stored(&mut self, event: Event) -> (request: Request)
        requires
            old(self).wf(),
            old(self)@.phase == Phase::Storing,
        ensures
            final(self).shaped(),
            advances(old(self)@, &event, final(self)@),
            asks(final(self)@, &request, payload(&event)),
    {
        let ghost pre = self@;
        let report = match event {
            Event::Stored => self.counted(true),
            _ => self.report,
        };
        self.next_download = self.next_download + 1;
        proof {
            assert(self@.downloads =~= pre.downloads.drop_first());
        }
        self.proceed(report)
    }

    fn on_loaded(&mut self, event: Event) -> (request: Request)
        requires
            old(self).wf(),
            old(self)@.phase == Phase::Loading,
        ensures
            final(self).shaped(),
            advances(old(self)@, &event, final(self)@),
            asks(final(self)@, &request, payload(&event)),
    {
        let ghost pre = self@;
        match event {
            Event::Loaded(content) => {
                self.phase = Phase::Pushing;
                let name = self.uploads[self.next_upload].clone();
                let url = upload_url(
                    self.server.as_str(),
                    self.email.as_str(),
                    &self.collection,
                    name.as_str(),
                );
                let mime = mime_type_for(name.as_str());
                Request::PostFile { url, filename: name, mime, content }
            },
            _ => {
                self.next_upload = self.next_upload + 1;
                proof {
                    assert(self@.uploads =~= pre.uploads.drop_first());
                }
                let report = self.report;
                self.proceed(report)
            },
        }
    }

    fn on_posted(&mut self, event: Event) -> (request: Request)
        requires
            old(self).wf(),
            old(self)@.phase == Phase::Pushing,
        ensures
            final(self).shaped(),
            advances(old(self)@, &event, final(self)@),
            asks(final(self)@, &request, payload(&event)),
    {
        let ghost pre = self@;
        let accepted = match event {
            Event::Posted { status } => is_upload_accepted(status),
            _ => false,
        };
        let report = if accepted {
            self.counted(false)
        } else {
            self.report
        };
        self.next_upload = self.next_upload + 1;
        proof {
            assert(self@.uploads =~= pre.uploads.drop_first());
        }
        self.proceed(report)
    }

    fn on_index(&mut self, event: Event) -> (request: Request)
        requires
            old(self).wf(),
            old(self)@.phase == Phase::Indexing,
        ensures
            final(self).shaped(),
            advances(old(self)@, &event, final(self)@),
            asks(final(self)@, &request, payload(&event)),
    {
        let ghost pre = self@;
        let listed = match event {
            Event::Listing { status, body } => match classify_status(status) {
                StatusClass::Success => Ok(parse_server_file_listing(body.as_str())),
                _ => Err(PassFailure::Status(status)),
            },
            _ => Err(PassFailure::Unreachable),
        };
        match listed {
            Ok(names) => {
                self.dirs = names.to_vec();
                self.next_dir = 0;
                let ghost dirs = views(self.dirs@);
                proof {
                    assert(self@.dirs =~= dirs);
                    assert(self@.downloads =~= Seq::<Seq<char>>::empty());
                    assert(self@.uploads =~= Seq::<Seq<char>>::empty());
                }
                let request = self.enter_next_dir();
                proof {
                    assert(is_ordering(dirs, names@));
                    assert(turns_to_next_dir(pre.scope, dirs, pre.report, self@));
                }
                request
            },
            Err(failure) => {
                self.report = self.index_failed(failure);
                self.phase = Phase::Done;
                proof {
                    assert(self@.dirs =~= Seq::<Seq<char>>::empty());
                    assert(self@.downloads =~= Seq::<Seq<char>>::empty());
                    assert(self@.uploads =~= Seq::<Seq<char>>::empty());
                }
                Request::Finish
            },
        }
    }

    /// Takes in what came of the last request, and says what to do next.
    ///
    /// An event of a kind that does not answer the last request is taken as
    /// its failure. Once the pass is over, every event is answered with
    /// `Finish`.
    pub fn step(&mut self, event: Event) -> (request: Request)
        requires
            old(self).wf(),
        ensures
            final(self).wf(),
            advances(old(self)@, &event, final(self)@),
            asks(final(self)@, &request, payload(&event)),
    {
        let ghost pre = self@;
        let ghost seen = event;
        let request = match self.phase {
            Phase::Listing => self.on_listing(event),
            Phase::Scanning => self.on_local_files(event),
            Phase::Fetching => self.on_file(event),
            Phase::Storing => self.on_stored(event),
            Phase::Loading => self.on_loaded(event),
            Phase::Pushing => self.on_posted(event),
            Phase::Indexing => self.on_index(event),
            Phase::Done => Request::Finish,
        };
        proof {
            lemma_advances_keeps_consistent(pre, &seen, self@);
        }
        request
    }
}

} // verus!
