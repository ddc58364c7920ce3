//! Which file-system events can change the source under review.
use crate::text::{ends_with, ends_with_text, starts_with, text_eq, texts};
use crate::text_set::TextSet;
use vstd::prelude::*;
use vstd::string::*;
use vstd::utf8::*;

verus! {

/// The parts of a path: where it begins, then what stands between its slashes,
/// without empty parts and parts that stand for the same directory.
pub open spec fn path_parts(path: Seq<char>) -> Seq<Seq<char>> {
    start_part(path) + closed_parts(path).0 + named_part(closed_parts(path).1)
}

/// Whether a path begins at the root.
pub open spec fn is_absolute(path: Seq<char>) -> bool {
    path.len() > 0 && path[0] == '/'
}

/// Whether a path says that it begins at the current directory.
pub open spec fn starts_here(path: Seq<char>) -> bool {
    path.len() > 0 && path[0] == '.' && (path.len() == 1 || path[1] == '/')
}

/// Where a path begins: at the root, which is a part of its own, or, where it
/// says so, at the current directory; else there is no such part.
pub open spec fn start_part(path: Seq<char>) -> Seq<Seq<char>> {
    if is_absolute(path) {
        seq![seq!['/']]
    } else if starts_here(path) {
        seq![seq!['.']]
    } else {
        Seq::empty()
    }
}

/// A part as a list: nothing where it is empty or stands for the same
/// directory.
pub open spec fn named_part(part: Seq<char>) -> Seq<Seq<char>> {
    if part.len() == 0 || part == seq!['.'] {
        Seq::empty()
    } else {
        seq![part]
    }
}

/// The parts that a slash ends, and the part behind the last slash.
pub open spec fn closed_parts(path: Seq<char>) -> (Seq<Seq<char>>, Seq<char>)
    decreases path.len(),
{
    if path.len() == 0 {
        (Seq::empty(), Seq::empty())
    } else {
        let (parts, open) = closed_parts(path.drop_last());
        if path.last() == '/' {
            (parts + named_part(open), Seq::empty())
        } else {
            (parts, open.push(path.last()))
        }
    }
}

fn is_same_directory(part: &str) -> (same: bool)
    ensures
        same == (part@ == seq!['.']),
{
    proof {
        reveal_strlit(".");
        assert("."@ =~= seq!['.']);
    }
    text_eq(part, ".")
}

fn close_part(parts: &mut Vec<String>, part: String)
    ensures
        texts(final(parts)@) == texts(old(parts)@) + named_part(part@),
{
    let ghost before = texts(parts@);
    let ghost added = part@;
    if !part.as_str().is_empty() && !is_same_directory(part.as_str()) {
        parts.push(part);
        assert(texts(parts@) =~= before + seq![added]);
    } else {
        assert(texts(parts@) =~= before + Seq::<Seq<char>>::empty());
    }
}

/// Paths that begin at the root are never below paths that do not, nor the
/// other way round, unless the upper one has no part at all.
pub proof fn law_absolute_and_relative_paths_stay_apart(path: Seq<char>, root: Seq<char>)
    requires
        path_parts(root).len() > 0,
        is_absolute(path) != is_absolute(root),
    ensures
        !parts_below(path_parts(path), path_parts(root)),
{
    lemma_closed_parts_hold_no_slash(path);
    lemma_closed_parts_hold_no_slash(root);
    let parts = path_parts(path);
    let above = path_parts(root);
    if parts.len() > 0 {
        let (absolute, relative) = if is_absolute(path) {
            (parts, root)
        } else {
            (above, path)
        };
        assert(absolute[0] == seq!['/']);
        let first = path_parts(relative)[0];
        assert(!first.contains('/')) by {
            assert(seq!['.'][0] == '.');
            let (closed, open) = closed_parts(relative);
            if start_part(relative).len() == 0 {
                if closed.len() > 0 {
                    assert(first == closed[0]);
                } else {
                    assert(first == open);
                }
            } else {
                assert(first == seq!['.']);
            }
        }
        assert(seq!['/'][0] == '/');
        assert(first != seq!['/']);
        if parts_below(parts, above) {
            assert(parts.take(above.len() as int)[0] == above[0]);
        }
    }
}

proof fn lemma_closed_parts_hold_no_slash(path: Seq<char>)
    ensures
        forall|i: int|
            0 <= i < closed_parts(path).0.len() ==> !(#[trigger] closed_parts(path).0[i]).contains(
                '/',
            ),
        !closed_parts(path).1.contains('/'),
    decreases path.len(),
{
    if path.len() > 0 {
        lemma_closed_parts_hold_no_slash(path.drop_last());
        let (parts, open) = closed_parts(path.drop_last());
        if path.last() != '/' {
            assert forall|i: int| 0 <= i < open.push(path.last()).len() implies open.push(
                path.last(),
            )[i] != '/' by {
                if i < open.len() {
                    assert(open.contains(open[i]));
                }
            }
        }
    }
}

/// Splits a path into its parts.
pub fn split_path(path: &str) -> (parts: Vec<String>)
    ensures
        texts(parts@) == path_parts(path@),
{
    let mut parts: Vec<String> = Vec::new();
    let mut open = String::new();
    let ghost chars = path@;
    proof {
        reveal_strlit("/");
        reveal_strlit(".");
        reveal_strlit("./");
        assert("/"@ =~= seq!['/']);
        assert("."@ =~= seq!['.']);
        assert("./"@ =~= seq!['.', '/']);
    }
    assert(texts(parts@) =~= Seq::<Seq<char>>::empty());
    if starts_with(path, "/") {
        assert(chars[0] == seq!['/'][0]);
        parts.push("/".to_owned());
        assert(texts(parts@) =~= seq![seq!['/']]);
    } else if text_eq(path, ".") || starts_with(path, "./") {
        assert(starts_here(chars));
        parts.push(".".to_owned());
        assert(texts(parts@) =~= seq![seq!['.']]);
    } else {
        assert(!is_absolute(chars)) by {
            if is_absolute(chars) {
                assert(chars.subrange(0, 1) =~= seq!['/']);
            }
        }
        assert(!starts_here(chars)) by {
            if chars.len() == 1 && chars[0] == '.' {
                assert(chars =~= seq!['.']);
            } else if starts_here(chars) {
                assert(chars.subrange(0, 2) =~= seq!['.', '/']);
            }
        }
    }
    assert(texts(parts@) == start_part(chars));
    let ghost start = start_part(chars);
    assert(chars.take(0) =~= Seq::<char>::empty());
    assert(start + Seq::<Seq<char>>::empty() =~= start);
    for c in iter: path.chars()
        invariant
            iter.seq() == chars,
            texts(parts@) == start + closed_parts(chars.take(iter.index() as int)).0,
            open@ == closed_parts(chars.take(iter.index() as int)).1,
    {
        let ghost closed = closed_parts(chars.take(iter.index() as int)).0;
        assert(chars.take(iter.index() as int + 1).drop_last() =~= chars.take(iter.index() as int));
        if c == '/' {
            let ghost part = named_part(open@);
            close_part(&mut parts, open);
            assert(start + closed + part =~= start + (closed + part));
            open = String::new();
        } else {
            open.push(c);
        }
    }
    assert(chars.take(chars.len() as int) =~= chars);
    close_part(&mut parts, open);
    parts
}

/// Where the parts of a path enter the metadata of Git, if they do.
pub open spec fn git_position(parts: Seq<Seq<char>>) -> Option<int>
    decreases parts.len(),
{
    if parts.len() == 0 {
        None
    } else {
        let earlier = git_position(parts.drop_last());
        if earlier is Some {
            earlier
        } else if parts.last() == ".git"@ {
            Some(parts.len() - 1)
        } else {
            None
        }
    }
}

/// Whether a change below the metadata of Git can change what is under review:
/// its current branch, index, references or exclusions can; its logs, objects
/// and locks cannot.
pub open spec fn git_change_matters(inner: Seq<Seq<char>>) -> bool {
    if inner.len() == 0 {
        false
    } else if inner.len() == 1 && (inner[0] == "HEAD"@ || inner[0] == "index"@ || inner[0]
        == "packed-refs"@) {
        true
    } else if inner.len() == 2 && inner[0] == "info"@ && inner[1] == "exclude"@ {
        true
    } else if inner[0] == "refs"@ {
        !ends_with_text(inner.last(), ".lock"@)
    } else {
        false
    }
}

/// Whether a change of a path can change what is under review.
pub open spec fn path_change_matters(parts: Seq<Seq<char>>) -> bool {
    match git_position(parts) {
        None => true,
        Some(position) => git_change_matters(parts.skip(position + 1)),
    }
}

fn find_git(parts: &Vec<String>) -> (position: Option<usize>)
    ensures
        match position {
            Some(index) => index < parts.len() && git_position(texts(parts@)) == Some(index as int),
            None => git_position(texts(parts@)) is None,
        },
{
    let mut found: Option<usize> = None;
    let ghost all = texts(parts@);
    let mut i: usize = 0;
    while i < parts.len()
        invariant
            i <= parts.len(),
            all == texts(parts@),
            match found {
                Some(index) => index < i && git_position(all.take(i as int)) == Some(index as int),
                None => git_position(all.take(i as int)) is None,
            },
        decreases parts.len() - i,
    {
        assert(all.take(i + 1).drop_last() =~= all.take(i as int));
        if found.is_none() && text_eq(parts[i].as_str(), ".git") {
            found = Some(i);
        }
        i += 1;
    }
    assert(all.take(parts.len() as int) =~= all);
    found
}

fn parts_change_matters(parts: &Vec<String>) -> (matters: bool)
    ensures
        matters == path_change_matters(texts(parts@)),
{
    let ghost all = texts(parts@);
    let first: usize = match find_git(parts) {
        None => {
            return true;
        },
        Some(position) => position + 1,
    };
    let ghost inner = all.skip(first as int);
    let count: usize = parts.len() - first;
    assert(inner.len() == count);
    if count == 0 {
        return false;
    }
    assert(inner[0] == parts@[first as int]@);
    assert(inner.last() == parts@[parts.len() - 1]@);
    let head = parts[first].as_str();
    if count == 1 && (text_eq(head, "HEAD") || text_eq(head, "index") || text_eq(
        head,
        "packed-refs",
    )) {
        return true;
    }
    if count == 2 {
        assert(inner[1] == parts@[first + 1]@);
        if text_eq(head, "info") && text_eq(parts[first + 1].as_str(), "exclude") {
            return true;
        }
    }
    if text_eq(head, "refs") {
        return !ends_with(parts[parts.len() - 1].as_str(), ".lock");
    }
    false
}

/// Whether a change of a path can change what is under review, as far as its
/// name tells.
pub fn local_event_can_change_source(path: &str) -> (can_change: bool)
    ensures
        can_change == path_change_matters(path_parts(path@)),
{
    let parts = split_path(path);
    parts_change_matters(&parts)
}

/// What happened to paths.
#[derive(Clone, Copy, Debug, PartialEq, Eq, Structural)]
pub enum WatchEventKind {
    Created,
    Modified,
    Removed,
    Unspecified,
    /// Something that changes no content, such as reading.
    Harmless,
}

/// A file-system event.
#[derive(Debug)]
pub struct WatchEvent {
    pub kind: WatchEventKind,
    /// Events were lost, so that everything may have changed.
    pub need_rescan: bool,
    pub paths: Vec<String>,
}

/// Whether parts of a path start with other parts.
pub open spec fn parts_below(parts: Seq<Seq<char>>, root: Seq<Seq<char>>) -> bool {
    root.len() <= parts.len() && parts.take(root.len() as int) == root
}

/// The repository that owns a path: the one with the longest root above it,
/// the last of equally long ones.
pub open spec fn owner_root(parts: Seq<Seq<char>>, roots: Seq<Seq<Seq<char>>>) -> Option<int>
    decreases roots.len(),
{
    if roots.len() == 0 {
        None
    } else {
        let earlier = owner_root(parts, roots.drop_last());
        let root = roots.last();
        if parts_below(parts, root) && (earlier is None || root.len()
            >= roots[earlier->0].len()) {
            Some(roots.len() - 1)
        } else {
            earlier
        }
    }
}

/// The parts of the roots.
pub open spec fn root_parts(roots: Seq<String>) -> Seq<Seq<Seq<char>>> {
    roots.map_values(|root: String| path_parts(root@))
}

/// Parts joined by slashes; the root is a slash itself.
pub open spec fn slashed(parts: Seq<Seq<char>>) -> Seq<char>
    decreases parts.len(),
{
    if parts.len() == 0 {
        Seq::empty()
    } else if parts.len() == 1 {
        parts[0]
    } else {
        let before = slashed(parts.drop_last());
        if before == seq!['/'] {
            before + parts.last()
        } else {
            before + seq!['/'] + parts.last()
        }
    }
}

/// What is known of a changed path.
#[derive(Clone, Copy, Debug, PartialEq, Eq, Structural)]
pub enum PathVerdict {
    /// It cannot matter.
    Harmless,
    /// It does matter.
    Matters,
    /// It matters unless the repository with this number ignores it.
    AskRepository(usize),
}

/// What is known of a changed path: its name may settle it; else the
/// repository that owns it has to be asked, unless it is the root itself or
/// no repository owns it.
pub open spec fn path_verdict(parts: Seq<Seq<char>>, roots: Seq<Seq<Seq<char>>>) -> PathVerdict {
    if !path_change_matters(parts) {
        PathVerdict::Harmless
    } else if git_position(parts) is Some {
        PathVerdict::Matters
    } else {
        match owner_root(parts, roots) {
            None => PathVerdict::Matters,
            Some(index) => if parts.len() == roots[index].len() {
                PathVerdict::Matters
            } else {
                PathVerdict::AskRepository(index as usize)
            },
        }
    }
}

pub(crate) fn is_below(parts: &Vec<String>, root: &Vec<String>) -> (below: bool)
    ensures
        below == parts_below(texts(parts@), texts(root@)),
{
    let ghost whole = texts(parts@);
    let ghost head = texts(root@);
    if root.len() > parts.len() {
        return false;
    }
    let mut i: usize = 0;
    while i < root.len()
        invariant
            i <= root.len() <= parts.len(),
            whole == texts(parts@),
            head == texts(root@),
            forall|j: int| 0 <= j < i ==> whole[j] == head[j],
        decreases root.len() - i,
    {
        if !text_eq(parts[i].as_str(), root[i].as_str()) {
            assert(whole.take(head.len() as int)[i as int] == whole[i as int]);
            assert(whole[i as int] == parts@[i as int]@);
            assert(head[i as int] == root@[i as int]@);
            return false;
        }
        i += 1;
    }
    assert(whole.take(head.len() as int) =~= head);
    true
}

fn find_owner_root(parts: &Vec<String>, roots: &Vec<Vec<String>>) -> (owner: Option<usize>)
    ensures
        ({
            let list = roots@.map_values(|root: Vec<String>| texts(root@));
            match owner {
                Some(index) => index < roots.len() && roots@[index as int].len() <= parts.len()
                    && owner_root(texts(parts@), list) == Some(index as int),
                None => owner_root(texts(parts@), list) is None,
            }
        }),
{
    let ghost list = roots@.map_values(|root: Vec<String>| texts(root@));
    let mut owner: Option<usize> = None;
    let mut i: usize = 0;
    while i < roots.len()
        invariant
            i <= roots.len(),
            list == roots@.map_values(|root: Vec<String>| texts(root@)),
            match owner {
                Some(index) => index < i && roots@[index as int].len() <= parts.len() && owner_root(
                    texts(parts@),
                    list.take(i as int),
                ) == Some(index as int),
                None => owner_root(texts(parts@), list.take(i as int)) is None,
            },
        decreases roots.len() - i,
    {
        assert(list.take(i + 1).drop_last() =~= list.take(i as int));
        if is_below(parts, &roots[i]) {
            let longer: bool = match owner {
                Some(index) => roots[i].len() >= roots[index].len(),
                None => true,
            };
            if longer {
                owner = Some(i);
            }
        }
        i += 1;
    }
    assert(list.take(roots.len() as int) =~= list);
    owner
}

fn judge_path(parts: &Vec<String>, roots: &Vec<Vec<String>>) -> (verdict: PathVerdict)
    ensures
        verdict == path_verdict(
            texts(parts@),
            roots@.map_values(|root: Vec<String>| texts(root@)),
        ),
        verdict matches PathVerdict::AskRepository(index) ==> index < roots.len()
            && roots@[index as int].len() <= parts.len(),
{
    if !parts_change_matters(parts) {
        return PathVerdict::Harmless;
    }
    if find_git(parts).is_some() {
        return PathVerdict::Matters;
    }
    match find_owner_root(parts, roots) {
        None => PathVerdict::Matters,
        Some(index) => if parts.len() == roots[index].len() {
            PathVerdict::Matters
        } else {
            PathVerdict::AskRepository(index)
        },
    }
}

fn join_parts(parts: &Vec<String>, start: usize) -> (path: String)
    requires
        start <= parts.len(),
    ensures
        path@ == slashed(texts(parts@).skip(start as int)),
{
    let ghost rest = texts(parts@).skip(start as int);
    let mut path = String::new();
    let mut i: usize = start;
    assert(rest.take(0) =~= Seq::<Seq<char>>::empty());
    while i < parts.len()
        invariant
            start <= i <= parts.len(),
            rest == texts(parts@).skip(start as int),
            path@ == slashed(rest.take(i - start)),
        decreases parts.len() - i,
    {
        let ghost next = rest.take(i - start + 1);
        let ghost before = path@;
        assert(next.drop_last() =~= rest.take(i - start));
        proof {
            reveal_strlit("/");
            assert("/"@ =~= seq!['/']);
        }
        let at_root: bool = text_eq(path.as_str(), "/");
        if i > start && !at_root {
            path.push('/');
        }
        path.append(parts[i].as_str());
        if i == start {
            assert(path@ =~= next[0]);
        } else if at_root {
            assert(path@ =~= before + next.last());
        } else {
            assert(path@ =~= before + seq!['/'] + next.last());
        }
        i += 1;
    }
    assert(rest.take(rest.len() as int) =~= rest);
    path
}

/// A text with slashes for its backslashes.
pub open spec fn forward_slashed(text: Seq<char>) -> Seq<char> {
    text.map_values(
        |c: char|
            if c == '\\' {
                '/'
            } else {
                c
            },
    )
}

fn forward_slashes(text: &str) -> (result: String)
    ensures
        result@ == forward_slashed(text@),
{
    let mut result = String::new();
    let ghost chars = text@;
    for c in iter: text.chars()
        invariant
            iter.seq() == chars,
            result@ =~= forward_slashed(chars).take(iter.index() as int),
    {
        if c == '\\' {
            result.push('/');
        } else {
            result.push(c);
        }
    }
    assert(result@ =~= forward_slashed(chars));
    result
}

/// What is known of some events.
#[derive(Debug)]
pub enum EventVerdict {
    /// They do change what is under review.
    Matters,
    /// They change it unless every repository ignores all of its paths.
    AskRepositories(Vec<TextSet>),
}

/// Whether an event of this kind can change content.
pub open spec fn kind_changes_content(kind: WatchEventKind) -> bool {
    kind != WatchEventKind::Harmless
}

/// Whether an event matters whatever its paths are: everything has to be
/// looked at again.
pub open spec fn event_is_broad(event: WatchEvent) -> bool {
    kind_changes_content(event.kind) && (event.need_rescan || (event.kind
        == WatchEventKind::Unspecified && event.paths@.len() == 0))
}

/// Whether a path of an event matters by itself.
pub open spec fn event_path_matters(event: WatchEvent, path: int, roots: Seq<String>) -> bool {
    kind_changes_content(event.kind) && path_verdict(
        path_parts(event.paths@[path]@),
        root_parts(roots),
    ) == PathVerdict::Matters
}

/// Whether an event matters by itself.
pub open spec fn event_matters(event: WatchEvent, roots: Seq<String>) -> bool {
    event_is_broad(event) || exists|path: int|
        0 <= path < event.paths@.len() && #[trigger] event_path_matters(event, path, roots)
}

/// Whether a repository has to be asked about a path below it because of an
/// event.
pub open spec fn event_asks(
    event: WatchEvent,
    roots: Seq<String>,
    repository: int,
    below: Seq<char>,
) -> bool {
    kind_changes_content(event.kind) && exists|path: int|
        0 <= path < event.paths@.len() && #[trigger] path_asks(
            event.paths@[path]@,
            roots,
            repository,
            below,
        )
}

/// Whether a repository has to be asked about a changed path, which is `below`
/// it.
pub open spec fn path_asks(
    path: Seq<char>,
    roots: Seq<String>,
    repository: int,
    below: Seq<char>,
) -> bool {
    &&& path_verdict(path_parts(path), root_parts(roots)) == PathVerdict::AskRepository(
        repository as usize,
    )
    &&& below == forward_slashed(
        slashed(path_parts(path).skip(root_parts(roots)[repository].len() as int)),
    )
}

fn split_roots(roots: &Vec<String>) -> (parts: Vec<Vec<String>>)
    ensures
        parts.len() == roots.len(),
        parts@.map_values(|root: Vec<String>| texts(root@)) == root_parts(roots@),
{
    let mut parts: Vec<Vec<String>> = Vec::new();
    let mut i: usize = 0;
    while i < roots.len()
        invariant
            i <= roots.len(),
            parts.len() == i,
            forall|j: int| 0 <= j < i ==> texts((#[trigger] parts@[j])@) == path_parts(roots@[j]@),
        decreases roots.len() - i,
    {
        parts.push(split_path(roots[i].as_str()));
        i += 1;
    }
    assert(parts@.map_values(|root: Vec<String>| texts(root@)) =~= root_parts(roots@));
    parts
}

/// Whether the questions are those that some events ask: to each repository
/// about the paths below it.
pub open spec fn are_questions(
    questions: Seq<TextSet>,
    events: Seq<WatchEvent>,
    roots: Seq<String>,
) -> bool {
    &&& questions.len() == roots.len()
    &&& forall|r: int| 0 <= r < questions.len() ==> (#[trigger] questions[r]).wf()
    &&& forall|r: int, below: Seq<char>|
        0 <= r < questions.len() ==> (#[trigger] questions[r]@.contains(below) <==> exists|e: int|
            0 <= e < events.len() && #[trigger] event_asks(events[e], roots, r, below))
}

/// Judges file-system events. Where their names do not settle it, what has to
/// be asked is returned: for each repository the paths below it.
pub fn judge_events(roots: &Vec<String>, events: &Vec<WatchEvent>) -> (verdict: EventVerdict)
    ensures
        match verdict {
            EventVerdict::Matters => exists|e: int|
                0 <= e < events@.len() && event_matters(#[trigger] events@[e], roots@),
            EventVerdict::AskRepositories(questions) => {
                &&& forall|e: int|
                    0 <= e < events@.len() ==> !event_matters(#[trigger] events@[e], roots@)
                &&& are_questions(questions@, events@, roots@)
            },
        },
{
    let split = split_roots(roots);
    let ghost list = root_parts(roots@);
    let mut questions: Vec<TextSet> = Vec::new();
    while questions.len() < roots.len()
        invariant
            questions.len() <= roots.len(),
            forall|r: int|
                0 <= r < questions.len() ==> (#[trigger] questions@[r]).wf() && questions@[r]@
                    == Set::<Seq<char>>::empty(),
        decreases roots.len() - questions.len(),
    {
        questions.push(TextSet::new());
    }
    let mut e: usize = 0;
    while e < events.len()
        invariant
            e <= events.len(),
            split.len() == roots.len(),
            list == root_parts(roots@),
            split@.map_values(|root: Vec<String>| texts(root@)) == list,
            forall|j: int| 0 <= j < e ==> !event_matters(#[trigger] events@[j], roots@),
            are_questions(questions@, events@.take(e as int), roots@),
        decreases events.len() - e,
    {
        let event = &events[e];
        let ghost earlier = events@.take(e as int);
        let ghost next = events@.take(e + 1);
        assert(next =~= earlier.push(*event));
        let ghost asked = questions@;
        if event.kind != WatchEventKind::Harmless {
            if event.need_rescan || (event.kind == WatchEventKind::Unspecified
                && event.paths.len() == 0) {
                assert(event_matters(events@[e as int], roots@));
                return EventVerdict::Matters;
            }
            let mut p: usize = 0;
            while p < event.paths.len()
                invariant
                    p <= event.paths.len(),
                    e < events.len(),
                    *event == events@[e as int],
                    kind_changes_content(event.kind),
                    split.len() == roots.len(),
                    list == root_parts(roots@),
                    split@.map_values(|root: Vec<String>| texts(root@)) == list,
                    forall|q: int|
                        0 <= q < p ==> !#[trigger] event_path_matters(*event, q, roots@),
                    asked.len() == roots.len(),
                    questions.len() == roots.len(),
                    forall|r: int| 0 <= r < questions.len() ==> (#[trigger] questions@[r]).wf(),
                    forall|r: int, below: Seq<char>|
                        0 <= r < questions.len() ==> (#[trigger] questions@[r]@.contains(below)
                            <==> asked[r]@.contains(below) || exists|q: int|
                            0 <= q < p && #[trigger] path_asks(
                                event.paths@[q]@,
                                roots@,
                                r,
                                below,
                            )),
                decreases event.paths.len() - p,
            {
                let parts = split_path(event.paths[p].as_str());
                let ghost before = questions@;
                let ghost path = event.paths@[p as int]@;
                match judge_path(&parts, &split) {
                    PathVerdict::Matters => {
                        assert(event_path_matters(*event, p as int, roots@));
                        assert(event_matters(events@[e as int], roots@));
                        return EventVerdict::Matters;
                    },
                    PathVerdict::Harmless => {
                        assert forall|r: int, below: Seq<char>|
                            0 <= r < questions.len() implies (#[trigger] questions@[r]@.contains(
                            below,
                        ) <==> asked[r]@.contains(below) || exists|q: int|
                            0 <= q < p + 1 && #[trigger] path_asks(
                                event.paths@[q]@,
                                roots@,
                                r,
                                below,
                            )) by {
                            lemma_one_more_path(*event, roots@, r, below, p as int);
                        }
                    },
                    PathVerdict::AskRepository(index) => {
                        assert(list[index as int] == texts(split@[index as int]@));
                        let relative = forward_slashes(
                            join_parts(&parts, split[index].len()).as_str(),
                        );
                        let ghost added = relative@;
                        assert(path_asks(path, roots@, index as int, added));
                        let mut set = questions[index].copy();
                        let _ = set.insert(relative);
                        questions.set(index, set);
                        assert forall|r: int, below: Seq<char>|
                            0 <= r < questions.len() implies (#[trigger] questions@[r]@.contains(
                            below,
                        ) <==> asked[r]@.contains(below) || exists|q: int|
                            0 <= q < p + 1 && #[trigger] path_asks(
                                event.paths@[q]@,
                                roots@,
                                r,
                                below,
                            )) by {
                            lemma_one_more_path(*event, roots@, r, below, p as int);
                            assert(before[r]@.contains(below) <==> asked[r]@.contains(below)
                                || exists|q: int|
                                0 <= q < p && #[trigger] path_asks(
                                    event.paths@[q]@,
                                    roots@,
                                    r,
                                    below,
                                ));
                        }
                    },
                }
                assert(!event_path_matters(*event, p as int, roots@));
                p += 1;
            }
        }
        assert(!event_matters(*event, roots@));
        assert forall|r: int, below: Seq<char>| 0 <= r < questions.len() implies (
        #[trigger] questions@[r]@.contains(below) <==> exists|j: int|
            0 <= j < next.len() && #[trigger] event_asks(next[j], roots@, r, below)) by {
            assert(asked[r]@.contains(below) <==> exists|j: int|
                0 <= j < earlier.len() && #[trigger] event_asks(earlier[j], roots@, r, below));
            if exists|j: int|
                0 <= j < earlier.len() && #[trigger] event_asks(earlier[j], roots@, r, below) {
                let j = choose|j: int|
                    0 <= j < earlier.len() && #[trigger] event_asks(earlier[j], roots@, r, below);
                assert(event_asks(next[j], roots@, r, below));
            }
            if event_asks(*event, roots@, r, below) {
                assert(event_asks(next[e as int], roots@, r, below));
            }
            if exists|j: int|
                0 <= j < next.len() && #[trigger] event_asks(next[j], roots@, r, below) {
                let j = choose|j: int|
                    0 <= j < next.len() && #[trigger] event_asks(next[j], roots@, r, below);
                if j < e {
                    assert(event_asks(earlier[j], roots@, r, below));
                }
            }
        }
        e += 1;
    }
    assert(events@.take(events.len() as int) =~= events@);
    EventVerdict::AskRepositories(questions)
}

proof fn lemma_one_more_path(
    event: WatchEvent,
    roots: Seq<String>,
    repository: int,
    below: Seq<char>,
    count: int,
)
    requires
        0 <= count < event.paths@.len(),
    ensures
        (exists|q: int|
            0 <= q < count + 1 && #[trigger] path_asks(
                event.paths@[q]@,
                roots,
                repository,
                below,
            )) <==> (exists|q: int|
            0 <= q < count && #[trigger] path_asks(event.paths@[q]@, roots, repository, below))
            || path_asks(event.paths@[count]@, roots, repository, below),
{
    if path_asks(event.paths@[count]@, roots, repository, below) {
        assert(0 <= count < count + 1);
    }
    if exists|q: int|
        0 <= q < count && #[trigger] path_asks(event.paths@[q]@, roots, repository, below) {
        let q = choose|q: int|
            0 <= q < count && #[trigger] path_asks(event.paths@[q]@, roots, repository, below);
        assert(0 <= q < count + 1);
    }
}

/// Whether an event is worth a closer look: everything may have changed, or
/// content changed at no known path or at one whose name may matter.
pub open spec fn is_candidate(event: WatchEvent) -> bool {
    event.need_rescan || (kind_changes_content(event.kind) && (event.paths@.len() == 0 || exists|
        i: int,
    |
        0 <= i < event.paths@.len() && path_change_matters(
            path_parts((#[trigger] event.paths@[i])@),
        )))
}

/// Whether an event is worth a closer look.
pub fn event_is_candidate(event: &WatchEvent) -> (candidate: bool)
    ensures
        candidate == is_candidate(*event),
{
    if event.need_rescan {
        return true;
    }
    if event.kind == WatchEventKind::Harmless {
        return false;
    }
    if event.paths.len() == 0 {
        return true;
    }
    let mut i: usize = 0;
    while i < event.paths.len()
        invariant
            i <= event.paths.len(),
            !event.need_rescan,
            kind_changes_content(event.kind),
            event.paths@.len() > 0,
            forall|j: int|
                0 <= j < i ==> !path_change_matters(path_parts((#[trigger] event.paths@[j])@)),
        decreases event.paths.len() - i,
    {
        if local_event_can_change_source(event.paths[i].as_str()) {
            return true;
        }
        i += 1;
    }
    false
}

/// Whether the paths of a repository matter, where it told whether it ignores
/// all of them, or could not tell.
pub fn answer_matters(all_ignored: Option<bool>) -> (matters: bool)
    ensures
        matters == (all_ignored != Some(true)),
{
    match all_ignored {
        Some(ignored) => !ignored,
        None => true,
    }
}

/// Whether the answers of the repositories say that something under review
/// may have changed. A repository that was asked about no path says nothing.
pub fn answers_matter(questions: &Vec<TextSet>, answers: &Vec<Option<bool>>) -> (matters: bool)
    requires
        questions.len() == answers.len(),
        forall|r: int| 0 <= r < questions@.len() ==> (#[trigger] questions@[r]).wf(),
    ensures
        matters == exists|r: int|
            0 <= r < questions@.len() && (#[trigger] questions@[r]).listed().len() > 0
                && answers@[r] != Some(true),
{
    let mut r: usize = 0;
    while r < questions.len()
        invariant
            r <= questions.len(),
            questions.len() == answers.len(),
            forall|s: int| 0 <= s < questions@.len() ==> (#[trigger] questions@[s]).wf(),
            forall|s: int|
                0 <= s < r ==> !((#[trigger] questions@[s]).listed().len() > 0 && answers@[s]
                    != Some(true)),
        decreases questions.len() - r,
    {
        if questions[r].len() > 0 && answer_matters(answers[r]) {
            return true;
        }
        r += 1;
    }
    false
}

/// What Git is asked about some paths: the bytes of each, ended by a zero byte.
pub open spec fn query_bytes(paths: Seq<Seq<char>>) -> Seq<u8>
    decreases paths.len(),
{
    if paths.len() == 0 {
        Seq::empty()
    } else {
        query_bytes(paths.drop_last()) + encode_utf8(paths.last()) + seq![0u8]
    }
}

/// Writes what Git is asked about the paths of a repository.
pub fn ignore_query(paths: &TextSet) -> (query: Vec<u8>)
    ensures
        query@ == query_bytes(paths.listed()),
{
    let ghost list = paths.listed();
    let mut query: Vec<u8> = Vec::new();
    let mut i: usize = 0;
    assert(list.take(0) =~= Seq::<Seq<char>>::empty());
    while i < paths.len()
        invariant
            i <= list.len(),
            list == paths.listed(),
            query@ == query_bytes(list.take(i as int)),
        decreases list.len() - i,
    {
        let path = paths.get(i);
        assert(list.take(i + 1).drop_last() =~= list.take(i as int));
        let bytes = path.as_str().as_bytes();
        let ghost before = query@;
        let mut k: usize = 0;
        while k < bytes.len()
            invariant
                k <= bytes@.len(),
                query@ =~= before + bytes@.take(k as int),
            decreases bytes@.len() - k,
        {
            query.push(bytes[k]);
            k += 1;
        }
        assert(bytes@.take(bytes@.len() as int) =~= bytes@);
        query.push(0);
        assert(query@ =~= before + encode_utf8(path@) + seq![0u8]);
        i += 1;
    }
    assert(list.take(list.len() as int) =~= list);
    query
}

/// The pieces of bytes between zero bytes.
pub open spec fn zero_pieces(bytes: Seq<u8>) -> Seq<Seq<u8>>
    decreases bytes.len(),
{
    if bytes.len() == 0 {
        seq![Seq::empty()]
    } else {
        let before = zero_pieces(bytes.drop_last());
        if bytes.last() == 0 {
            before.push(Seq::empty())
        } else {
            before.drop_last().push(before.last().push(bytes.last()))
        }
    }
}

/// Whether the output of Git names a path as ignored.
pub open spec fn names_path(output: Seq<u8>, path: Seq<u8>) -> bool {
    path.len() > 0 && zero_pieces(output).contains(path)
}

/// The bytes of some pieces.
pub open spec fn byte_lists(pieces: Seq<Vec<u8>>) -> Seq<Seq<u8>> {
    pieces.map_values(|piece: Vec<u8>| piece@)
}

fn split_zero(bytes: &Vec<u8>) -> (pieces: Vec<Vec<u8>>)
    ensures
        byte_lists(pieces@) == zero_pieces(bytes@),
{
    let mut pieces: Vec<Vec<u8>> = Vec::new();
    let mut open: Vec<u8> = Vec::new();
    let mut i: usize = 0;
    assert(bytes@.take(0) =~= Seq::<u8>::empty());
    assert(byte_lists(pieces@).push(open@) =~= seq![Seq::<u8>::empty()]);
    while i < bytes.len()
        invariant
            i <= bytes.len(),
            byte_lists(pieces@).push(open@) == zero_pieces(bytes@.take(i as int)),
        decreases bytes.len() - i,
    {
        let ghost closed = byte_lists(pieces@);
        let ghost piece = open@;
        assert(bytes@.take(i + 1).drop_last() =~= bytes@.take(i as int));
        assert(closed.push(piece).drop_last() =~= closed);
        assert(closed.push(piece).last() == piece);
        if bytes[i] == 0 {
            pieces.push(open);
            open = Vec::new();
            assert(byte_lists(pieces@) =~= closed.push(piece));
            assert(open@ =~= Seq::<u8>::empty());
        } else {
            open.push(bytes[i]);
        }
        i += 1;
    }
    assert(bytes@.take(bytes.len() as int) =~= bytes@);
    let ghost closed = byte_lists(pieces@);
    let ghost piece = open@;
    pieces.push(open);
    assert(byte_lists(pieces@) =~= closed.push(piece));
    pieces
}

fn is_piece(pieces: &Vec<Vec<u8>>, path: &str) -> (found: bool)
    ensures
        found == byte_lists(pieces@).contains(encode_utf8(path@)),
{
    let bytes = path.as_bytes();
    let ghost list = byte_lists(pieces@);
    let mut i: usize = 0;
    while i < pieces.len()
        invariant
            i <= pieces.len(),
            list == byte_lists(pieces@),
            bytes@ == encode_utf8(path@),
            forall|j: int| 0 <= j < i ==> #[trigger] list[j] != bytes@,
        decreases pieces.len() - i,
    {
        let piece = &pieces[i];
        assert(list[i as int] == piece@);
        if piece.len() == bytes.len() {
            let mut k: usize = 0;
            while k < bytes.len() && piece[k] == bytes[k]
                invariant
                    k <= bytes@.len(),
                    piece@.len() == bytes@.len(),
                    forall|j: int| 0 <= j < k ==> piece@[j] == bytes@[j],
                decreases bytes@.len() - k,
            {
                k += 1;
            }
            if k == bytes.len() {
                assert(piece@ =~= bytes@);
                assert(list.contains(bytes@));
                return true;
            }
            assert(piece@[k as int] != bytes@[k as int]);
        }
        i += 1;
    }
    false
}

/// Whether a repository ignores all the paths it was asked about, by how Git
/// ended and what it put out; `None` where Git failed.
pub open spec fn ignore_answer(
    paths: Set<Seq<char>>,
    status: Option<i32>,
    output: Seq<u8>,
) -> Option<bool> {
    if status == Some(0i32) || status == Some(1i32) {
        Some(
            forall|path: Seq<char>| #[trigger]
                paths.contains(path) ==> names_path(output, encode_utf8(path)),
        )
    } else {
        None
    }
}

/// Reads whether a repository ignores all the paths it was asked about.
pub fn ignores_all(paths: &TextSet, status: Option<i32>, output: &Vec<u8>) -> (all: Option<bool>)
    requires
        paths.wf(),
    ensures
        all == ignore_answer(paths@, status, output@),
{
    match status {
        Some(code) => {
            if code != 0 && code != 1 {
                return None;
            }
        },
        None => {
            return None;
        },
    }
    proof {
        paths.lemma_listed();
    }
    let pieces = split_zero(output);
    let mut i: usize = 0;
    while i < paths.len()
        invariant
            i <= paths.listed().len(),
            byte_lists(pieces@) == zero_pieces(output@),
            status == Some(0i32) || status == Some(1i32),
            forall|j: int|
                0 <= j < i ==> names_path(output@, encode_utf8(#[trigger] paths.listed()[j])),
            paths.listed().to_set() == paths@,
        decreases paths.listed().len() - i,
    {
        let path = paths.get(i);
        if path.as_str().as_bytes().len() == 0 || !is_piece(&pieces, path.as_str()) {
            assert(paths.listed().to_set().contains(paths.listed()[i as int]));
            assert(!names_path(output@, encode_utf8(path@)));
            return Some(false);
        }
        i += 1;
    }
    assert forall|path: Seq<char>| #[trigger] paths@.contains(path) implies names_path(
        output@,
        encode_utf8(path),
    ) by {
        let j = choose|j: int| 0 <= j < paths.listed().len() && paths.listed()[j] == path;
        assert(names_path(output@, encode_utf8(paths.listed()[j])));
    }
    Some(true)
}

} // verus!
