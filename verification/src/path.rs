//! Request paths: how a raw path is cut into segments, and how a captured
//! path is confined below a root directory before it names a file.

use vstd::prelude::*;
use vstd::std_specs::iter::IteratorSpec;
use vstd::string::StringExecFns;

use crate::text::string_of;

verus! {

/// The finished segments `done`, with the segment under way added unless it
/// is empty.
pub open spec fn closed(done: Seq<Seq<char>>, current: Seq<char>) -> Seq<Seq<char>> {
    if current.len() == 0 {
        done
    } else {
        done.push(current)
    }
}

/// The state of a left-to-right reading of `raw`: the segments that a `/`
/// has ended, and the characters read since the last `/`.
pub open spec fn scan(raw: Seq<char>) -> (Seq<Seq<char>>, Seq<char>)
    decreases raw.len(),
{
    if raw.len() == 0 {
        (Seq::empty(), Seq::empty())
    } else {
        let (done, current) = scan(raw.drop_last());
        if raw.last() == '/' {
            (closed(done, current), Seq::empty())
        } else {
            (done, current.push(raw.last()))
        }
    }
}

/// The segments of a raw path: its maximal runs of characters other than
/// `/`, in order. Empty runs (a leading, trailing or doubled `/`) give no
/// segment.
pub open spec fn segments(raw: Seq<char>) -> Seq<Seq<char>> {
    closed(scan(raw).0, scan(raw).1)
}

/// The segment that names the directory itself.
pub open spec fn dot() -> Seq<char> {
    seq!['.']
}

/// The segment that names the parent directory.
pub open spec fn dot_dot() -> Seq<char> {
    seq!['.', '.']
}

/// The directory names that are left when `segs` is walked from a root:
/// `.` stays where it is, `..` gives up the last name, any other segment
/// is entered. `None` as soon as `..` is met at the root itself.
pub open spec fn resolve(segs: Seq<Seq<char>>) -> Option<Seq<Seq<char>>>
    decreases segs.len(),
{
    if segs.len() == 0 {
        Some(Seq::empty())
    } else {
        match resolve(segs.drop_last()) {
            None => None,
            Some(names) => {
                if segs.last() == dot() {
                    Some(names)
                } else if segs.last() == dot_dot() {
                    if names.len() == 0 {
                        None
                    } else {
                        Some(names.drop_last())
                    }
                } else {
                    Some(names.push(segs.last()))
                }
            },
        }
    }
}

/// The path of the entry reached from `root` through `names`: the root,
/// then each name behind a `/`.
pub open spec fn below(root: Seq<char>, names: Seq<Seq<char>>) -> Seq<char>
    decreases names.len(),
{
    if names.len() == 0 {
        root
    } else {
        below(root, names.drop_last()).push('/') + names.last()
    }
}

/// The file below `root` that the captured segments `segs` name, if they
/// name one: `None` where they climb above the root, and where they end at
/// the root itself.
pub open spec fn confined(root: Seq<char>, segs: Seq<Seq<char>>) -> Option<Seq<char>> {
    match resolve(segs) {
        Some(names) => if names.len() > 0 {
            Some(below(root, names))
        } else {
            None
        },
        None => None,
    }
}

/// The segments of `segs` at the places `picks`.
spec fn picked(segs: Seq<Seq<char>>, picks: Seq<usize>) -> Seq<Seq<char>> {
    Seq::new(picks.len(), |j: int| segs[picks[j] as int])
}

/// Once a walk has left the root, no further segment brings it back.
pub proof fn lemma_resolve_stays_none(segs: Seq<Seq<char>>, k: int)
    requires
        0 <= k <= segs.len(),
        resolve(segs.take(k)) is None,
    ensures
        resolve(segs) is None,
    decreases segs.len() - k,
{
    if k < segs.len() {
        assert(segs.take(k + 1).drop_last() == segs.take(k));
        lemma_resolve_stays_none(segs, k + 1);
    } else {
        assert(segs.take(k) == segs);
    }
}

/// Reading on over characters that are no `/` ends no segment: they all
/// go to the segment under way.
pub proof fn lemma_scan_run(raw: Seq<char>, run: Seq<char>)
    requires
        forall|i: int| 0 <= i < run.len() ==> run[i] != '/',
    ensures
        scan(raw + run) == (scan(raw).0, scan(raw).1 + run),
    decreases run.len(),
{
    if run.len() == 0 {
        assert(raw + run == raw);
        assert(scan(raw).1 + run == scan(raw).1);
    } else {
        lemma_scan_run(raw, run.drop_last());
        assert((raw + run).drop_last() == raw + run.drop_last());
        assert(scan(raw).1 + run == (scan(raw).1 + run.drop_last()).push(run.last()));
    }
}

/// Whether `segment` can be a segment of a raw path: it has a character,
/// and none of them is `/`.
pub open spec fn is_segment(segment: Seq<char>) -> bool {
    segment.len() > 0 && forall|i: int| 0 <= i < segment.len() ==> segment[i] != '/'
}

/// Every segment of a raw path is non-empty and holds no `/`.
pub proof fn lemma_segments_are_segments(raw: Seq<char>)
    ensures
        forall|i: int| 0 <= i < scan(raw).0.len() ==> is_segment(#[trigger] scan(raw).0[i]),
        forall|i: int| 0 <= i < scan(raw).1.len() ==> scan(raw).1[i] != '/',
        forall|i: int| 0 <= i < segments(raw).len() ==> is_segment(#[trigger] segments(raw)[i]),
    decreases raw.len(),
{
    if raw.len() > 0 {
        let front = raw.drop_last();
        lemma_segments_are_segments(front);
        let done = scan(front).0;
        let current = scan(front).1;
        assert forall|i: int| 0 <= i < scan(raw).0.len() implies is_segment(
            #[trigger] scan(raw).0[i],
        ) by {
            if i < done.len() {
                assert(scan(raw).0[i] == done[i]);
            } else {
                assert(scan(raw).0[i] == current);
            }
        }
        assert forall|i: int| 0 <= i < scan(raw).1.len() implies scan(raw).1[i] != '/' by {
            if i < current.len() {
                assert(scan(raw).1[i] == current[i]);
            }
        }
    }
    assert forall|i: int| 0 <= i < segments(raw).len() implies is_segment(
        #[trigger] segments(raw)[i],
    ) by {
        if i < scan(raw).0.len() {
            assert(segments(raw)[i] == scan(raw).0[i]);
        } else {
            assert(segments(raw)[i] == scan(raw).1);
        }
    }
}

/// How far below the root a walk through `segs` ends, were the root no
/// bound: each name goes one down, each `..` one up, each `.` nowhere.
pub open spec fn depth(segs: Seq<Seq<char>>) -> int
    decreases segs.len(),
{
    if segs.len() == 0 {
        0
    } else if segs.last() == dot() {
        depth(segs.drop_last())
    } else if segs.last() == dot_dot() {
        depth(segs.drop_last()) - 1
    } else {
        depth(segs.drop_last()) + 1
    }
}

/// Whether a walk through `segs` climbs above the root at some point.
pub open spec fn escapes(segs: Seq<Seq<char>>) -> bool {
    exists|k: int| 0 <= k <= segs.len() && depth(#[trigger] segs.take(k)) < 0
}

/// A walk is given up exactly where it climbs above the root. Where it is
/// not, as many names are left as the walk ends below the root; each of
/// them is one of the segments, and none is `.` or `..`.
pub proof fn lemma_resolve_confines(segs: Seq<Seq<char>>)
    ensures
        resolve(segs) is None <==> escapes(segs),
        resolve(segs) matches Some(names) ==> {
            &&& names.len() == depth(segs)
            &&& forall|i: int|
                0 <= i < names.len() ==> segs.contains(#[trigger] names[i]) && names[i] != dot()
                    && names[i] != dot_dot()
        },
    decreases segs.len(),
{
    if segs.len() == 0 {
        assert forall|k: int| 0 <= k <= segs.len() implies depth(#[trigger] segs.take(k)) >= 0 by {
            assert(segs.take(k).len() == 0);
        }
    } else {
        let front = segs.drop_last();
        lemma_resolve_confines(front);
        assert(segs.take(segs.len() as int) == segs);
        assert forall|k: int| 0 <= k < segs.len() implies segs.take(k) == front.take(k) by {
            assert(segs.take(k) =~= front.take(k));
        }
        match resolve(front) {
            None => {
                let k = choose|k: int| 0 <= k <= front.len() && depth(#[trigger] front.take(k)) < 0;
                assert(segs.take(k) == front.take(k));
            },
            Some(names) => {
                assert forall|k: int| 0 <= k < segs.len() implies depth(#[trigger] segs.take(k))
                    >= 0 by {
                    assert(segs.take(k) == front.take(k));
                }
                assert forall|i: int| 0 <= i < names.len() implies segs.contains(
                    #[trigger] names[i],
                ) by {
                    let at = choose|at: int| 0 <= at < front.len() && front[at] == names[i];
                    assert(segs[at] == names[i]);
                }
                if resolve(segs) is Some {
                    let left = resolve(segs)->0;
                    assert(segs[segs.len() - 1] == segs.last());
                    assert forall|i: int| 0 <= i < left.len() implies segs.contains(
                        #[trigger] left[i],
                    ) by {
                        if i < names.len() {
                            assert(left[i] == names[i]);
                        }
                    }
                }
            },
        }
    }
}

/// No file is given exactly where the walk climbs above the root or ends
/// at it.
pub proof fn lemma_confined_refuses(root: Seq<char>, segs: Seq<Seq<char>>)
    ensures
        confined(root, segs) is None <==> escapes(segs) || depth(segs) == 0,
{
    lemma_resolve_confines(segs);
    if !escapes(segs) {
        assert(segs.take(segs.len() as int) == segs);
    }
}

/// Cutting the path of an entry below `root` gives the segments of
/// `root` and then the names, where each name is fit to be a segment.
pub proof fn lemma_segments_of_below(root: Seq<char>, names: Seq<Seq<char>>)
    requires
        forall|i: int| 0 <= i < names.len() ==> is_segment(#[trigger] names[i]),
    ensures
        segments(below(root, names)) == segments(root) + names,
    decreases names.len(),
{
    if names.len() == 0 {
        assert(segments(root) + names == segments(root));
    } else {
        let front = names.drop_last();
        let stem = below(root, front).push('/');
        lemma_segments_of_below(root, front);
        assert(stem.drop_last() == below(root, front));
        assert(is_segment(names[names.len() - 1]));
        lemma_scan_run(stem, names.last());
        assert(Seq::<char>::empty() + names.last() == names.last());
        assert(segments(root) + names == (segments(root) + front).push(names.last()));
    }
}

/// Whether the path `file` stays below the directory `root` when it is
/// followed segment by segment: it begins with the segments of `root`, goes
/// on with at least one more, and none of those is `.` or `..`.
pub open spec fn stays_below(root: Seq<char>, file: Seq<char>) -> bool {
    &&& segments(root).len() < segments(file).len()
    &&& segments(root).is_prefix_of(segments(file))
    &&& forall|i: int|
        segments(root).len() <= i < segments(file).len() ==> (#[trigger] segments(file)[i])
            != dot() && segments(file)[i] != dot_dot()
}

/// The file that `confined` gives for the segments of a request stays
/// below the root.
pub proof fn lemma_confined_file_stays_below(root: Seq<char>, segs: Seq<Seq<char>>)
    requires
        forall|i: int| 0 <= i < segs.len() ==> is_segment(#[trigger] segs[i]),
    ensures
        confined(root, segs) matches Some(file) ==> stays_below(root, file),
{
    lemma_resolve_confines(segs);
    if confined(root, segs) is Some {
        let names = resolve(segs)->0;
        let file = below(root, names);
        assert forall|i: int| 0 <= i < names.len() implies is_segment(#[trigger] names[i]) by {
            let at = choose|at: int| 0 <= at < segs.len() && segs[at] == names[i];
            assert(is_segment(segs[at]));
        }
        lemma_segments_of_below(root, names);
        assert(segments(file).subrange(0, segments(root).len() as int) =~= segments(root));
        assert forall|i: int| segments(root).len() <= i < segments(file).len() implies (
        #[trigger] segments(file)[i]) != dot() && segments(file)[i] != dot_dot() by {
            assert(segments(file)[i] == names[i - segments(root).len()]);
        }
    }
}

/// A request path, cut into its segments. Each segment has a character,
/// and none of them holds a `/`.
pub struct RequestPath {
    segments: Vec<Vec<char>>,
}

impl View for RequestPath {
    type V = Seq<Seq<char>>;

    closed spec fn view(&self) -> Seq<Seq<char>> {
        Seq::new(self.segments@.len(), |i: int| self.segments@[i]@)
    }
}

fn same_chars(a: &Vec<char>, b: &Vec<char>) -> (same: bool)
    ensures
        same == (a@ == b@),
{
    if a.len() != b.len() {
        return false;
    }
    let mut i: usize = 0;
    while i < a.len()
        invariant
            i <= a.len(),
            a.len() == b.len(),
            a@.take(i as int) == b@.take(i as int),
        decreases a.len() - i,
    {
        if a[i] != b[i] {
            return false;
        }
        assert(a@.take(i + 1) == a@.take(i as int).push(a@[i as int]));
        assert(b@.take(i + 1) == b@.take(i as int).push(b@[i as int]));
        i += 1;
    }
    assert(a@.take(i as int) == a@);
    assert(b@.take(i as int) == b@);
    true
}

fn is_dot(segment: &Vec<char>) -> (yes: bool)
    ensures
        yes == (segment@ == dot()),
{
    let yes = segment.len() == 1 && segment[0] == '.';
    proof {
        assert(dot().len() == 1 && dot()[0] == '.');
        if yes {
            assert(segment@ =~= dot());
        }
    }
    yes
}

fn is_dot_dot(segment: &Vec<char>) -> (yes: bool)
    ensures
        yes == (segment@ == dot_dot()),
{
    let yes = segment.len() == 2 && segment[0] == '.' && segment[1] == '.';
    proof {
        assert(dot_dot().len() == 2 && dot_dot()[0] == '.' && dot_dot()[1] == '.');
        if yes {
            assert(segment@ =~= dot_dot());
        }
    }
    yes
}

impl RequestPath {
    #[verifier::type_invariant]
    spec fn proper(self) -> bool {
        forall|i: int| 0 <= i < self.segments@.len() ==> is_segment(#[trigger] self.segments@[i]@)
    }

    /// Cuts a raw path into its segments.
    pub fn parse(raw: &str) -> (path: RequestPath)
        ensures
            path@ == segments(raw@),
    {
        let mut done: Vec<Vec<char>> = Vec::new();
        let mut current: Vec<char> = Vec::new();
        let ghost mut read: Seq<Seq<char>> = Seq::empty();
        for c in it: raw.chars()
            invariant
                it.seq() == raw@,
                read == Seq::new(done@.len(), |i: int| done@[i]@),
                scan(raw@.take(it.index() as int)) == (read, current@),
        {
            proof {
                let next = raw@.take(it.index() + 1);
                assert(next.drop_last() == raw@.take(it.index() as int));
                assert(next.last() == c);
            }
            if c == '/' {
                if current.len() > 0 {
                    proof {
                        read = read.push(current@);
                    }
                    done.push(current);
                    current = Vec::new();
                }
            } else {
                current.push(c);
            }
        }
        assert(raw@.take(raw@.len() as int) == raw@);
        if current.len() > 0 {
            proof {
                read = read.push(current@);
            }
            done.push(current);
        }
        proof {
            lemma_segments_are_segments(raw@);
            assert(read == segments(raw@));
            assert forall|i: int| 0 <= i < done@.len() implies is_segment(
                #[trigger] done@[i]@,
            ) by {
                assert(done@[i]@ == read[i]);
            }
        }
        RequestPath { segments: done }
    }

    /// The number of segments.
    pub fn len(&self) -> (n: usize)
        ensures
            n == self@.len(),
    {
        self.segments.len()
    }

    /// The segments, each as a string.
    pub fn names(&self) -> (names: Vec<String>)
        ensures
            names@.len() == self@.len(),
            forall|i: int| 0 <= i < names@.len() ==> names@[i]@ == self@[i],
    {
        let mut names: Vec<String> = Vec::new();
        let mut i: usize = 0;
        while i < self.segments.len()
            invariant
                i <= self.segments.len(),
                names@.len() == i,
                forall|j: int| 0 <= j < i ==> names@[j]@ == self@[j],
            decreases self.segments.len() - i,
        {
            names.push(string_of(&self.segments[i]));
            i += 1;
        }
        names
    }

    /// Whether the two paths have the same segments.
    pub fn equals(&self, other: &RequestPath) -> (same: bool)
        ensures
            same == (self@ == other@),
    {
        let same = self.segments.len() == other.segments.len() && self.is_prefix_of(other);
        proof {
            if same || self@ == other@ {
                assert(other@.subrange(0, self@.len() as int) =~= other@);
            }
        }
        same
    }

    /// Whether the segments of `self` are the first segments of `other`.
    pub fn is_prefix_of(&self, other: &RequestPath) -> (yes: bool)
        ensures
            yes == self@.is_prefix_of(other@),
    {
        if self.segments.len() > other.segments.len() {
            return false;
        }
        let mut i: usize = 0;
        while i < self.segments.len()
            invariant
                i <= self.segments.len() <= other.segments.len(),
                forall|j: int| 0 <= j < i ==> self@[j] == other@[j],
            decreases self.segments.len() - i,
        {
            if !same_chars(&self.segments[i], &other.segments[i]) {
                assert(self@[i as int] != other@.subrange(0, self@.len() as int)[i as int]);
                return false;
            }
            i += 1;
        }
        assert(self@ =~= other@.subrange(0, self@.len() as int));
        true
    }

    /// The path made of the segments of `self` and then those of `tail`.
    pub fn join(self, tail: RequestPath) -> (whole: RequestPath)
        ensures
            whole@ == self@ + tail@,
    {
        proof {
            use_type_invariant(&self);
            use_type_invariant(&tail);
        }
        let mut segments = self.segments;
        let mut rest = tail.segments;
        let ghost head = segments@;
        let ghost added = rest@;
        segments.append(&mut rest);
        assert forall|i: int| 0 <= i < segments@.len() implies is_segment(
            #[trigger] segments@[i]@,
        ) by {
            if i < head.len() {
                assert(segments@[i] == head[i]);
            } else {
                assert(segments@[i] == added[i - head.len()]);
            }
        }
        let whole = RequestPath { segments };
        assert(whole@ =~= Seq::new(head.len(), |i: int| head[i]@) + Seq::new(
            added.len(),
            |i: int| added[i]@,
        ));
        whole
    }

    /// The path without its first `n` segments; the empty path where it
    /// has no more than `n`.
    pub fn skip(self, n: usize) -> (rest: RequestPath)
        ensures
            rest@ == if n <= self@.len() {
                self@.skip(n as int)
            } else {
                Seq::empty()
            },
    {
        proof {
            use_type_invariant(&self);
        }
        let mut segments = self.segments;
        if n > segments.len() {
            return RequestPath { segments: Vec::new() };
        }
        let ghost all = segments@;
        let kept = segments.split_off(n);
        assert forall|i: int| 0 <= i < kept@.len() implies is_segment(#[trigger] kept@[i]@) by {
            assert(kept@[i] == all[n + i]);
        }
        let rest = RequestPath { segments: kept };
        assert(rest@ =~= self@.skip(n as int));
        rest
    }

    /// Walks the segments and tells which of them are left as names, by
    /// their places.
    fn resolve_names(&self) -> (kept: Option<Vec<usize>>)
        ensures
            match kept {
                Some(picks) => {
                    &&& forall|j: int| 0 <= j < picks@.len() ==> picks@[j] < self@.len()
                    &&& resolve(self@) == Some(picked(self@, picks@))
                },
                None => resolve(self@) is None,
            },
    {
        let mut picks: Vec<usize> = Vec::new();
        let mut i: usize = 0;
        while i < self.segments.len()
            invariant
                i <= self@.len(),
                self@.len() == self.segments@.len(),
                forall|j: int| 0 <= j < picks@.len() ==> picks@[j] < self@.len(),
                resolve(self@.take(i as int)) == Some(picked(self@, picks@)),
            decreases self@.len() - i,
        {
            let ghost before = picked(self@, picks@);
            proof {
                assert(self@.take(i + 1).drop_last() == self@.take(i as int));
                assert(self@.take(i + 1).last() == self.segments@[i as int]@);
            }
            if is_dot(&self.segments[i]) {
            } else if is_dot_dot(&self.segments[i]) {
                if picks.len() == 0 {
                    proof {
                        lemma_resolve_stays_none(self@, i + 1);
                    }
                    return None;
                }
                picks.pop();
                assert(picked(self@, picks@) == before.drop_last());
            } else {
                picks.push(i);
                assert(picked(self@, picks@) == before.push(self@[i as int]));
            }
            i += 1;
        }
        assert(self@.take(i as int) == self@);
        Some(picks)
    }

    /// The file below `root` that the segments name, if they name one:
    /// `None` where they climb above `root` and where they end at `root`.
    pub fn file_below(&self, root: &str) -> (file: Option<String>)
        ensures
            match file {
                Some(f) => confined(root@, self@) == Some(f@) && stays_below(root@, f@),
                None => confined(root@, self@) is None,
            },
    {
        proof {
            use_type_invariant(self);
            assert forall|i: int| 0 <= i < self@.len() implies is_segment(#[trigger] self@[i]) by {
                assert(self@[i] == self.segments@[i]@);
            }
            lemma_confined_file_stays_below(root@, self@);
        }
        let picks = match self.resolve_names() {
            Some(picks) => picks,
            None => {
                return None;
            },
        };
        if picks.len() == 0 {
            return None;
        }
        let ghost names = picked(self@, picks@);
        let mut file = String::from_str(root);
        let mut k: usize = 0;
        while k < picks.len()
            invariant
                k <= picks@.len(),
                names == picked(self@, picks@),
                self@.len() == self.segments@.len(),
                forall|j: int| 0 <= j < picks@.len() ==> picks@[j] < self@.len(),
                file@ == below(root@, names.take(k as int)),
            decreases picks@.len() - k,
        {
            let name = &self.segments[picks[k]];
            let ghost stem = file@.push('/');
            file.push('/');
            let mut n: usize = 0;
            while n < name.len()
                invariant
                    n <= name@.len(),
                    file@ == stem + name@.take(n as int),
                decreases name@.len() - n,
            {
                file.push(name[n]);
                assert(name@.take(n + 1) == name@.take(n as int).push(name@[n as int]));
                n += 1;
            }
            proof {
                assert(name@.take(n as int) == name@);
                assert(names.take(k + 1).drop_last() == names.take(k as int));
                assert(names.take(k + 1).last() == name@);
            }
            k += 1;
        }
        assert(names.take(k as int) == names);
        Some(file)
    }
}

} // verus!
