//! File sets, and the parser that turns a remote listing into one.
//!
//! A listing is text with one file name per line. Names are kept exactly as
//! they were sent: a name that holds a percent escape keeps it.

use crate::text::{string_from, to_chars, trim, trim_bounds};
use vstd::hash_set::StringHashSet;
use vstd::prelude::*;

verus! {

/// The views of a sequence of strings.
pub open spec fn views(names: Seq<String>) -> Seq<Seq<char>> {
    names.map_values(|s: String| s@)
}

/// A set of file names. Its view is the mathematical set of the names; the
/// names are also kept in the order in which they were first inserted.
pub struct FileSet {
    names: Vec<String>,
    index: StringHashSet,
}

impl View for FileSet {
    type V = Set<Seq<char>>;

    closed spec fn view(&self) -> Set<Seq<char>> {
        self.index@
    }
}

impl FileSet {
    /// The names in the order of their insertion.
    pub closed spec fn order(&self) -> Seq<Seq<char>> {
        views(self.names@)
    }

    /// The invariant of the type: no name is held twice, and the ordered names
    /// are exactly the members of the set.
    pub closed spec fn wf(&self) -> bool {
        &&& views(self.names@).no_duplicates()
        &&& self.index@ =~= views(self.names@).to_set()
    }

    /// What the invariant means to users of the type.
    pub proof fn lemma_wf(&self)
        requires
            self.wf(),
        ensures
            self.order().no_duplicates(),
            self.order().to_set() == self@,
            self@.finite(),
            self@.len() == self.order().len(),
    {
        views(self.names@).unique_seq_to_set();
        vstd::seq_lib::seq_to_set_is_finite(views(self.names@));
    }

    /// The empty set.
    pub fn new() -> (files: FileSet)
        ensures
            files.wf(),
            files@ == Set::<Seq<char>>::empty(),
            files.order() == Seq::<Seq<char>>::empty(),
    {
        let files = FileSet { names: Vec::new(), index: StringHashSet::new() };
        assert(views(files.names@) =~= Seq::<Seq<char>>::empty());
        assert(views(files.names@).to_set() =~= Set::<Seq<char>>::empty());
        files
    }

    /// Adds `name`. Returns whether it was new.
    pub fn insert(&mut self, name: String) -> (added: bool)
        requires
            old(self).wf(),
        ensures
            final(self).wf(),
            final(self)@ == old(self)@.insert(name@),
            added == !old(self)@.contains(name@),
            final(self).order() == if added {
                old(self).order().push(name@)
            } else {
                old(self).order()
            },
    {
        if self.index.contains(name.as_str()) {
            assert(self.index@.insert(name@) =~= self.index@);
            return false;
        }
        let ghost before = views(self.names@);
        self.index.insert(name.clone());
        self.names.push(name);
        proof {
            assert(views(self.names@) =~= before.push(name@));
            before.lemma_push_to_set_commute(name@);
            assert(!before.contains(name@)) by {
                if before.contains(name@) {
                    assert(before.to_set().contains(name@));
                }
            }
        }
        true
    }

    /// Whether `name` is a member.
    pub fn contains(&self, name: &str) -> (r: bool)
        ensures
            r == self@.contains(name@),
    {
        self.index.contains(name)
    }

    /// The number of names.
    pub fn len(&self) -> (n: usize)
        requires
            self.wf(),
        ensures
            n == self@.len(),
            n == self.order().len(),
    {
        proof {
            self.lemma_wf();
        }
        self.names.len()
    }

    /// Whether the set has no name.
    pub fn is_empty(&self) -> (r: bool)
        requires
            self.wf(),
        ensures
            r == (self@ == Set::<Seq<char>>::empty()),
            r == (self.order().len() == 0),
    {
        proof {
            self.lemma_wf();
            if self.names@.len() == 0 {
                assert(self@ =~= Set::<Seq<char>>::empty());
            } else {
                assert(self.order()[0] == self.names@[0]@);
                assert(self.order().to_set().contains(self.order()[0]));
            }
        }
        self.names.len() == 0
    }

    /// The names as a vector, in the order of their insertion.
    pub fn to_vec(&self) -> (out: Vec<String>)
        requires
            self.wf(),
        ensures
            views(out@) == self.order(),
            views(out@).no_duplicates(),
            views(out@).to_set() == self@,
    {
        let mut out: Vec<String> = Vec::new();
        let mut i: usize = 0;
        while i < self.names.len()
            invariant
                i <= self.names.len(),
                views(out@) == views(self.names@).take(i as int),
            decreases self.names.len() - i,
        {
            let ghost copied = views(out@);
            out.push(self.names[i].clone());
            proof {
                assert(views(out@) =~= copied.push(self.names@[i as int]@));
                assert(views(self.names@).take(i + 1) =~= views(self.names@).take(i as int).push(
                    self.names@[i as int]@,
                ));
            }
            i += 1;
        }
        proof {
            assert(views(self.names@).take(i as int) =~= views(self.names@));
            self.lemma_wf();
        }
        out
    }

    /// The names of `self` that `other` does not hold, each once, in the order
    /// of their insertion into `self`.
    pub fn difference(&self, other: &FileSet) -> (out: Vec<String>)
        requires
            self.wf(),
        ensures
            views(out@).no_duplicates(),
            views(out@).to_set() == self@.difference(other@),
            views(out@) == self.order().filter(|name: Seq<char>| !other@.contains(name)),
    {
        let ghost all = views(self.names@);
        let ghost lacking = |name: Seq<char>| !other@.contains(name);
        let mut out: Vec<String> = Vec::new();
        let mut i: usize = 0;
        proof {
            assert(views(out@).to_set() =~= all.take(0).to_set().difference(other@));
            assert(all.take(0) =~= Seq::<Seq<char>>::empty());
        }
        while i < self.names.len()
            invariant
                i <= self.names.len(),
                self.wf(),
                all == views(self.names@),
                lacking == |name: Seq<char>| !other@.contains(name),
                views(out@).no_duplicates(),
                views(out@).to_set() == all.take(i as int).to_set().difference(other@),
                views(out@) == all.take(i as int).filter(lacking),
            decreases self.names.len() - i,
        {
            let ghost prefix = all.take(i as int);
            let ghost name = self.names@[i as int]@;
            let ghost kept = views(out@);
            proof {
                assert(all[i as int] == name);
                assert(all.take(i + 1) =~= prefix.push(name));
                assert(prefix.push(name).drop_last() =~= prefix);
                reveal(Seq::filter);
                prefix.lemma_push_to_set_commute(name);
                assert(!prefix.contains(name)) by {
                    if prefix.contains(name) {
                        let k = choose|k: int| 0 <= k < prefix.len() && prefix[k] == name;
                        assert(all[k] == all[i as int]);
                    }
                }
                assert(!kept.contains(name)) by {
                    if kept.contains(name) {
                        assert(kept.to_set().contains(name));
                        assert(prefix.to_set().contains(name));
                    }
                }
            }
            if !other.contains(self.names[i].as_str()) {
                out.push(self.names[i].clone());
                proof {
                    assert(views(out@) =~= kept.push(name));
                    kept.lemma_push_to_set_commute(name);
                    assert(views(out@).to_set() =~= all.take(i + 1).to_set().difference(other@));
                }
            } else {
                assert(views(out@).to_set() =~= all.take(i + 1).to_set().difference(other@));
            }
            i += 1;
        }
        proof {
            assert(all.take(i as int) =~= all);
        }
        out
    }
}

/// `body[start..end]` is one line of `body`: it is bounded by line feeds (or
/// the ends of the text) and holds none.
pub open spec fn is_line(body: Seq<char>, start: int, end: int) -> bool {
    &&& 0 <= start <= end <= body.len()
    &&& (start == 0 || body[start - 1] == '\n')
    &&& (end == body.len() || body[end] == '\n')
    &&& forall|k: int| start <= k < end ==> body[k] != '\n'
}

/// `name` is listed in `body`: it is not empty, and it is what is left of some
/// line once the whitespace at both ends is removed.
pub open spec fn is_listed(body: Seq<char>, name: Seq<char>) -> bool {
    name.len() > 0 && exists|start: int, end: int| #[trigger]
        is_line(body, start, end) && name == trim(body.subrange(start, end))
}

/// The set of names that a listing holds.
pub open spec fn listing_names(body: Seq<char>) -> Set<Seq<char>> {
    Set::new(|name: Seq<char>| is_listed(body, name))
}

/// The names listed on the lines of `body` that end before `limit`.
spec fn names_before(body: Seq<char>, limit: int) -> Set<Seq<char>> {
    Set::new(
        |name: Seq<char>|
            name.len() > 0 && exists|start: int, end: int| #[trigger]
                is_line(body, start, end) && end < limit && name == trim(
                    body.subrange(start, end),
                ),
    )
}

/// What a line adds to a set of names: what is left of it once the whitespace
/// at both ends is removed, unless nothing is left.
pub open spec fn with_line(names: Set<Seq<char>>, line: Seq<char>) -> Set<Seq<char>> {
    if trim(line).len() > 0 {
        names.insert(trim(line))
    } else {
        names
    }
}

proof fn lemma_line_is_unique(body: Seq<char>, start: int, end: int, s: int, e: int)
    requires
        is_line(body, start, end),
        is_line(body, s, e),
        start <= e <= end,
    ensures
        s == start,
        e == end,
{
    if e < end {
        assert(body[e] == '\n');
    }
    if s < start {
        assert(body[start - 1] == '\n');
    }
    if s > start {
        assert(body[s - 1] == '\n');
    }
}

proof fn lemma_names_step(body: Seq<char>, start: int, end: int, limit: int)
    requires
        is_line(body, start, end),
        limit == end + 1,
    ensures
        names_before(body, limit) == with_line(
            names_before(body, start),
            body.subrange(start, end),
        ),
{
    let line = body.subrange(start, end);
    let lhs = names_before(body, limit);
    let rhs = with_line(names_before(body, start), line);
    assert forall|name: Seq<char>| lhs.contains(name) implies rhs.contains(name) by {
        let (s, e) = choose|s: int, e: int| #[trigger]
            is_line(body, s, e) && e < limit && name == trim(body.subrange(s, e));
        if e >= start {
            lemma_line_is_unique(body, start, end, s, e);
        } else {
            assert(is_line(body, s, e) && e < start);
        }
    }
    assert forall|name: Seq<char>| rhs.contains(name) implies lhs.contains(name) by {
        if names_before(body, start).contains(name) {
            let (s, e) = choose|s: int, e: int| #[trigger]
                is_line(body, s, e) && e < start && name == trim(body.subrange(s, e));
            assert(is_line(body, s, e) && e < limit);
        } else {
            assert(is_line(body, start, end) && end < limit);
        }
    }
    assert(lhs =~= rhs);
}

proof fn lemma_names_all(body: Seq<char>, limit: int)
    requires
        limit > body.len(),
    ensures
        names_before(body, limit) == listing_names(body),
{
    assert forall|name: Seq<char>| names_before(body, limit).contains(name) implies listing_names(
        body,
    ).contains(name) by {
        let (s, e) = choose|s: int, e: int| #[trigger]
            is_line(body, s, e) && e < limit && name == trim(body.subrange(s, e));
        assert(is_line(body, s, e));
    }
    assert forall|name: Seq<char>| listing_names(body).contains(name) implies names_before(
        body,
        limit,
    ).contains(name) by {
        let (s, e) = choose|s: int, e: int| #[trigger]
            is_line(body, s, e) && name == trim(body.subrange(s, e));
        assert(is_line(body, s, e) && e < limit);
    }
    assert(names_before(body, limit) =~= listing_names(body));
}

proof fn lemma_names_none(body: Seq<char>)
    ensures
        names_before(body, 0) == Set::<Seq<char>>::empty(),
{
    assert(names_before(body, 0) =~= Set::<Seq<char>>::empty());
}

/// Adds the name on the line `chars[start..end]`, if it holds one.
fn add_line(files: &mut FileSet, chars: &Vec<char>, start: usize, end: usize)
    requires
        old(files).wf(),
        start <= end <= chars.len(),
    ensures
        final(files).wf(),
        final(files)@ == with_line(old(files)@, chars@.subrange(start as int, end as int)),
{
    let (a, b) = trim_bounds(chars, start, end);
    if a < b {
        let name = string_from(chars, a, b);
        files.insert(name);
    }
}

/// Parses the body of a listing response into the set of names it holds.
///
/// Each line gives one name, with the whitespace around it removed; lines that
/// are empty or hold only whitespace give none. Nothing in a name is decoded.
pub fn parse_server_file_listing(body: &str) -> (files: FileSet)
    ensures
        files.wf(),
        files@ == listing_names(body@),
{
    let chars = to_chars(body);
    let n = chars.len();
    let mut files = FileSet::new();
    let mut start: usize = 0;
    let mut pos: usize = 0;
    proof {
        lemma_names_none(chars@);
    }
    while pos < n
        invariant
            n == chars.len(),
            start <= pos <= n,
            start == 0 || chars@[start - 1] == '\n',
            forall|k: int| start <= k < pos ==> chars@[k] != '\n',
            files.wf(),
            files@ == names_before(chars@, start as int),
        decreases n - pos,
    {
        if chars[pos] == '\n' {
            proof {
                lemma_names_step(chars@, start as int, pos as int, pos + 1);
            }
            add_line(&mut files, &chars, start, pos);
            start = pos + 1;
        }
        pos += 1;
    }
    proof {
        lemma_names_step(chars@, start as int, n as int, n + 1);
        lemma_names_all(chars@, n + 1);
    }
    add_line(&mut files, &chars, start, n);
    files
}

/// A listing of one line holds the name on that line, if it holds one.
pub proof fn lemma_listing_of_one_line(line: Seq<char>)
    requires
        !line.contains('\n'),
    ensures
        listing_names(line) == with_line(Set::<Seq<char>>::empty(), line),
{
    let whole = line.subrange(0, line.len() as int);
    assert(whole =~= line);
    let rhs = with_line(Set::<Seq<char>>::empty(), line);
    assert forall|name: Seq<char>| listing_names(line).contains(name) implies rhs.contains(
        name,
    ) by {
        let (s, e) = choose|s: int, e: int| #[trigger]
            is_line(line, s, e) && name == trim(line.subrange(s, e));
        if s > 0 {
            assert(line.contains(line[s - 1]));
        }
        if e < line.len() {
            assert(line.contains(line[e]));
        }
    }
    assert forall|name: Seq<char>| rhs.contains(name) implies listing_names(line).contains(
        name,
    ) by {
        assert forall|k: int| 0 <= k < line.len() implies line[k] != '\n' by {
            assert(line.contains(line[k]));
        }
        assert(is_line(line, 0, line.len() as int));
    }
    assert(listing_names(line) =~= rhs);
}

/// A listing holds the name on its first line, if that holds one, and the
/// names of the listing that follows the first line feed.
pub proof fn lemma_listing_of_first_line(line: Seq<char>, rest: Seq<char>)
    requires
        !line.contains('\n'),
    ensures
        listing_names(line + seq!['\n'] + rest) == with_line(listing_names(rest), line),
{
    let body = line + seq!['\n'] + rest;
    let cut = line.len() as int;
    let off = cut + 1;
    let lhs = listing_names(body);
    let rhs = with_line(listing_names(rest), line);
    assert(body.subrange(0, cut) =~= line);
    assert(body[cut] == '\n');
    assert forall|k: int| 0 <= k < cut implies body[k] != '\n' by {
        assert(line.contains(line[k]));
    }
    assert forall|name: Seq<char>| lhs.contains(name) implies rhs.contains(name) by {
        let (s, e) = choose|s: int, e: int| #[trigger]
            is_line(body, s, e) && name == trim(body.subrange(s, e));
        if e <= cut {
            if e < cut {
                assert(body[e] == '\n');
            }
            if s > 0 {
                assert(body[s - 1] == '\n');
            }
            assert(s == 0 && e == cut);
        } else {
            if s <= cut {
                assert(body[cut] != '\n');
            }
            assert(body.subrange(s, e) =~= rest.subrange(s - off, e - off));
            assert forall|k: int| s - off <= k < e - off implies rest[k] != '\n' by {
                assert(rest[k] == body[k + off]);
            }
            if s - off > 0 {
                assert(rest[s - off - 1] == body[s - 1]);
            }
            if e - off < rest.len() {
                assert(rest[e - off] == body[e]);
            }
            assert(is_line(rest, s - off, e - off));
        }
    }
    assert forall|name: Seq<char>| rhs.contains(name) implies lhs.contains(name) by {
        if listing_names(rest).contains(name) {
            let (s, e) = choose|s: int, e: int| #[trigger]
                is_line(rest, s, e) && name == trim(rest.subrange(s, e));
            assert(body.subrange(s + off, e + off) =~= rest.subrange(s, e));
            assert forall|k: int| s + off <= k < e + off implies body[k] != '\n' by {
                assert(body[k] == rest[k - off]);
            }
            if s > 0 {
                assert(body[s + off - 1] == rest[s - 1]);
            }
            if e < rest.len() {
                assert(body[e + off] == rest[e]);
            }
            assert(is_line(body, s + off, e + off));
        } else {
            assert(is_line(body, 0, cut));
        }
    }
    assert(lhs =~= rhs);
}

} // verus!
