//! Which changes below the watched directories can change what is under
//! review.
use crate::events::{
    closed_parts, event_asks, event_is_candidate, event_matters, event_path_matters,
    forward_slashed, git_position, ignore_query, ignores_all, is_absolute, judge_events,
    local_event_can_change_source, named_part, names_path, owner_root, parts_below, path_asks,
    path_change_matters, path_parts, path_verdict, query_bytes, root_parts, slashed, split_path,
    zero_pieces, EventVerdict, PathVerdict, WatchEvent, WatchEventKind,
};
use crate::text::{ends_with_text, texts};
use crate::text_set::TextSet;
use vstd::prelude::*;
use vstd::string::*;
use vstd::utf8::*;

verus! {

/// Some names with a slash between each two.
pub open spec fn with_slashes(names: Seq<Seq<char>>) -> Seq<char>
    decreases names.len(),
{
    if names.len() == 0 {
        Seq::empty()
    } else if names.len() == 1 {
        names[0]
    } else {
        with_slashes(names.drop_last()) + seq!['/'] + names.last()
    }
}

/// Whether a text is the name of a file or of a directory.
pub open spec fn is_name(name: Seq<char>) -> bool {
    &&& name.len() > 0
    &&& name != seq!['.']
    &&& forall|i: int| 0 <= i < name.len() ==> name[i] != '/'
}

/// Whether every one of some texts is a name, and there is one.
pub open spec fn are_names(names: Seq<Seq<char>>) -> bool {
    &&& names.len() > 0
    &&& forall|i: int| 0 <= i < names.len() ==> is_name(#[trigger] names[i])
}

/// The path that leads from the root of the file system through directories to
/// a file.
pub open spec fn full_path(names: Seq<Seq<char>>) -> Seq<char> {
    seq!['/'] + with_slashes(names)
}

proof fn lemma_open_part(path: Seq<char>, name: Seq<char>)
    requires
        forall|i: int| 0 <= i < name.len() ==> name[i] != '/',
    ensures
        closed_parts(path + name) == (closed_parts(path).0, closed_parts(path).1 + name),
    decreases name.len(),
{
    if name.len() == 0 {
        assert(path + name =~= path);
        assert(closed_parts(path).1 + name =~= closed_parts(path).1);
    } else {
        lemma_open_part(path, name.drop_last());
        assert((path + name).drop_last() =~= path + name.drop_last());
        assert((path + name).last() == name.last());
        assert((closed_parts(path).1 + name.drop_last()).push(name.last()) =~= closed_parts(path).1
            + name);
    }
}

proof fn lemma_closed_names(start: Seq<char>, names: Seq<Seq<char>>)
    requires
        closed_parts(start) == (Seq::<Seq<char>>::empty(), Seq::<char>::empty()),
        are_names(names),
    ensures
        closed_parts(start + with_slashes(names)) == (names.drop_last(), names.last()),
    decreases names.len(),
{
    assert(is_name(names[names.len() - 1]));
    if names.len() == 1 {
        lemma_open_part(start, names[0]);
        assert(names.drop_last() =~= Seq::<Seq<char>>::empty());
        assert(Seq::<char>::empty() + names[0] =~= names[0]);
    } else {
        let before = names.drop_last();
        assert forall|i: int| 0 <= i < before.len() implies is_name(#[trigger] before[i]) by {
            assert(before[i] == names[i]);
        }
        lemma_closed_names(start, before);
        assert(is_name(before[before.len() - 1]));
        let path = start + with_slashes(before);
        let slash = path + seq!['/'];
        assert(slash.drop_last() =~= path);
        assert(before.drop_last() + seq![before.last()] =~= before);
        assert(closed_parts(slash) == (before, Seq::<char>::empty()));
        lemma_open_part(slash, names.last());
        assert(slash + names.last() =~= start + with_slashes(names));
        assert(Seq::<char>::empty() + names.last() =~= names.last());
    }
}

proof fn lemma_with_slashes_starts(names: Seq<Seq<char>>)
    requires
        are_names(names),
    ensures
        with_slashes(names).len() >= names[0].len(),
        with_slashes(names).take(names[0].len() as int) == names[0],
        names.len() > 1 ==> with_slashes(names).len() > names[0].len(),
        names.len() == 1 ==> with_slashes(names) == names[0],
    decreases names.len(),
{
    assert(is_name(names[0]));
    if names.len() == 1 {
        assert(names[0].take(names[0].len() as int) =~= names[0]);
    } else {
        let before = names.drop_last();
        assert forall|i: int| 0 <= i < before.len() implies is_name(#[trigger] before[i]) by {
            assert(before[i] == names[i]);
        }
        lemma_with_slashes_starts(before);
        assert(before[0] == names[0]);
        assert(with_slashes(names).take(names[0].len() as int) =~= with_slashes(before).take(
            names[0].len() as int,
        ));
    }
}

proof fn lemma_full_path_parts(names: Seq<Seq<char>>)
    requires
        are_names(names),
    ensures
        path_parts(full_path(names)) == seq![seq!['/']] + names,
{
    let start = seq!['/'];
    assert(start.drop_last() =~= Seq::<char>::empty());
    assert(closed_parts(start.drop_last()) == (Seq::<Seq<char>>::empty(), Seq::<char>::empty()));
    assert(Seq::<Seq<char>>::empty() + named_part(Seq::<char>::empty()) =~= Seq::<
        Seq<char>,
    >::empty());
    assert(closed_parts(start) == (Seq::<Seq<char>>::empty(), Seq::<char>::empty()));
    lemma_closed_names(start, names);
    assert(full_path(names)[0] == '/');
    assert(is_absolute(full_path(names)));
    assert(is_name(names[names.len() - 1]));
    assert(names.drop_last() + seq![names.last()] =~= names);
    assert(path_parts(full_path(names)) =~= seq![seq!['/']] + names);
}

/// A path is taken apart into its names, behind the root where it begins there.
pub proof fn law_paths_are_taken_apart_at_slashes(
    names: Seq<Seq<char>>,
    relative: &str,
    relative_parts: Vec<String>,
    full: &str,
    full_parts: Vec<String>,
)
    requires
        are_names(names),
        relative@ == with_slashes(names),
        full@ == full_path(names),
        call_ensures(split_path, (relative,), relative_parts),
        call_ensures(split_path, (full,), full_parts),
    ensures
        texts(relative_parts@) == names,
        texts(full_parts@) == seq![seq!['/']] + names,
{
    lemma_full_path_parts(names);
    let start = Seq::<char>::empty();
    lemma_closed_names(start, names);
    let path = with_slashes(names);
    assert(start + path =~= path);
    lemma_with_slashes_starts(names);
    let first = names[0];
    assert(is_name(first));
    assert(path.take(first.len() as int)[0] == path[0]);
    assert(path[0] == first[0]);
    if path[0] == '.' {
        if first.len() == 1 {
            assert(first =~= seq!['.']);
        } else {
            assert(path.take(first.len() as int)[1] == path[1]);
            assert(path[1] == first[1]);
        }
    }
    assert(is_name(names[names.len() - 1]));
    assert(names.drop_last() + seq![names.last()] =~= names);
    assert(path_parts(path) =~= names);
}

proof fn lemma_git_position(parts: Seq<Seq<char>>)
    ensures
        match git_position(parts) {
            Some(place) => {
                &&& 0 <= place < parts.len()
                &&& parts[place] == ".git"@
                &&& forall|i: int| 0 <= i < place ==> #[trigger] parts[i] != ".git"@
            },
            None => forall|i: int| 0 <= i < parts.len() ==> #[trigger] parts[i] != ".git"@,
        },
    decreases parts.len(),
{
    if parts.len() > 0 {
        let before = parts.drop_last();
        lemma_git_position(before);
        assert forall|i: int| 0 <= i < before.len() implies before[i] == #[trigger] parts[i] by {}
    }
}

proof fn lemma_root_is_no_repository()
    ensures
        seq!['/'] != ".git"@,
{
    reveal_strlit(".git");
    assert(".git"@.len() == 4);
}

/// Whether none of some names is that of a repository's own directory.
pub open spec fn is_source(names: Seq<Seq<char>>) -> bool {
    forall|i: int| 0 <= i < names.len() ==> #[trigger] names[i] != ".git"@
}

/// Which of a repository's own files tell of a change: those that say what is
/// checked out, what is staged, where branches stand and what is ignored. A lock
/// does not.
pub open spec fn tells_of_change(names: Seq<Seq<char>>) -> bool {
    ||| names == seq!["HEAD"@]
    ||| names == seq!["index"@]
    ||| names == seq!["packed-refs"@]
    ||| names == seq!["info"@, "exclude"@]
    ||| names.len() > 0 && names[0] == "refs"@ && !ends_with_text(names.last(), ".lock"@)
}

proof fn lemma_source_path(names: Seq<Seq<char>>)
    requires
        are_names(names),
        is_source(names),
    ensures
        git_position(path_parts(full_path(names))) is None,
        path_change_matters(path_parts(full_path(names))),
{
    lemma_full_path_parts(names);
    let parts = path_parts(full_path(names));
    lemma_git_position(parts);
    lemma_root_is_no_repository();
    assert forall|i: int| 0 <= i < parts.len() implies #[trigger] parts[i] != ".git"@ by {
        if i > 0 {
            assert(parts[i] == names[i - 1]);
        }
    }
}

proof fn lemma_repository_path(above: Seq<Seq<char>>, below: Seq<Seq<char>>)
    requires
        are_names(above + seq![".git"@] + below),
        is_source(above),
    ensures
        git_position(path_parts(full_path(above + seq![".git"@] + below))) == Some(
            above.len() + 1int,
        ),
        path_change_matters(path_parts(full_path(above + seq![".git"@] + below)))
            == tells_of_change(below),
{
    let names = above + seq![".git"@] + below;
    lemma_full_path_parts(names);
    let parts = path_parts(full_path(names));
    lemma_git_position(parts);
    lemma_root_is_no_repository();
    let place = above.len() as int + 1;
    assert(parts[place] == ".git"@);
    assert forall|i: int| 0 <= i < place implies #[trigger] parts[i] != ".git"@ by {
        if i > 0 {
            assert(parts[i] == above[i - 1]);
        }
    }
    assert(git_position(parts) == Some(place));
    assert(parts.skip(place + 1) =~= below);
    reveal_strlit("HEAD");
    reveal_strlit("index");
    reveal_strlit("packed-refs");
    reveal_strlit("info");
    reveal_strlit("refs");
    assert("HEAD"@[0] == 'H' && "index"@[0] == 'i' && "packed-refs"@[0] == 'p' && "info"@[0] == 'i'
        && "refs"@[0] == 'r');
    if below.len() == 1 {
        assert(below =~= seq![below[0]]);
    } else if below.len() == 2 {
        assert(below =~= seq![below[0], below[1]]);
    }
}

/// Every change of a source file can change what is under review. Of a
/// repository's own files only those do that say what is checked out, staged or
/// ignored and where branches stand; locks, objects and all others do not.
pub proof fn law_source_changes_are_noticed(
    names: Seq<Seq<char>>,
    above: Seq<Seq<char>>,
    below: Seq<Seq<char>>,
    source: &str,
    noticed: bool,
    own: &str,
    own_noticed: bool,
)
    requires
        are_names(names),
        is_source(names),
        source@ == full_path(names),
        call_ensures(local_event_can_change_source, (source,), noticed),
        are_names(above + seq![".git"@] + below),
        is_source(above),
        own@ == full_path(above + seq![".git"@] + below),
        call_ensures(local_event_can_change_source, (own,), own_noticed),
    ensures
        noticed,
        own_noticed <==> tells_of_change(below),
{
    lemma_source_path(names);
    lemma_repository_path(above, below);
}

/// An event in which something got lost is a candidate whatever it tells, one
/// that changes no content is none, and one on a source file is.
pub proof fn law_candidates_are_told(event: WatchEvent, names: Seq<Seq<char>>, path: int, candidate: bool)
    requires
        call_ensures(event_is_candidate, (&event,), candidate),
    ensures
        event.need_rescan ==> candidate,
        event.kind == WatchEventKind::Harmless && !event.need_rescan ==> !candidate,
        event.kind != WatchEventKind::Harmless && event.paths@.len() == 0 ==> candidate,
        event.kind != WatchEventKind::Harmless && 0 <= path < event.paths@.len() && are_names(names)
            && is_source(names) && event.paths@[path]@ == full_path(names) ==> candidate,
{
    if are_names(names) && is_source(names) {
        lemma_source_path(names);
    }
    if 0 <= path < event.paths@.len() {
        assert(event.paths@[path] == event.paths@[path]);
    }
}

proof fn lemma_owner_root(parts: Seq<Seq<char>>, roots: Seq<Seq<Seq<char>>>)
    ensures
        match owner_root(parts, roots) {
            Some(index) => {
                &&& 0 <= index < roots.len()
                &&& parts_below(parts, roots[index])
                &&& forall|i: int|
                    0 <= i < roots.len() && parts_below(parts, #[trigger] roots[i])
                        ==> roots[i].len() <= roots[index].len()
            },
            None => forall|i: int|
                0 <= i < roots.len() ==> !parts_below(parts, #[trigger] roots[i]),
        },
    decreases roots.len(),
{
    if roots.len() > 0 {
        let before = roots.drop_last();
        lemma_owner_root(parts, before);
        assert forall|i: int| 0 <= i < before.len() implies before[i] == #[trigger] roots[i] by {}
    }
}

/// Whether each of some directories is told by its names.
pub open spec fn are_told_by(roots: Seq<String>, names: Seq<Seq<Seq<char>>>) -> bool {
    &&& names.len() == roots.len()
    &&& forall|i: int|
        0 <= i < roots.len() ==> are_names(#[trigger] names[i]) && roots[i]@ == full_path(names[i])
}

/// Whether the first of some names are those of a directory.
pub open spec fn is_in(names: Seq<Seq<char>>, directory: Seq<Seq<char>>) -> bool {
    directory.len() <= names.len() && names.take(directory.len() as int) == directory
}

proof fn lemma_is_in(names: Seq<Seq<char>>, directory: Seq<Seq<char>>)
    requires
        are_names(names),
        are_names(directory),
    ensures
        parts_below(path_parts(full_path(names)), path_parts(full_path(directory))) <==> is_in(
            names,
            directory,
        ),
{
    lemma_full_path_parts(names);
    lemma_full_path_parts(directory);
    let parts = seq![seq!['/']] + names;
    let above = seq![seq!['/']] + directory;
    if is_in(names, directory) {
        assert(parts.take(above.len() as int) =~= above) by {
            assert forall|i: int| 0 <= i < above.len() implies parts.take(above.len() as int)[i]
                == above[i] by {
                if i > 0 {
                    assert(names.take(directory.len() as int)[i - 1] == directory[i - 1]);
                }
            }
        }
    }
    if parts_below(parts, above) {
        assert(names.take(directory.len() as int) =~= directory) by {
            assert forall|i: int| 0 <= i < directory.len() implies names.take(
                directory.len() as int,
            )[i] == directory[i] by {
                assert(parts.take(above.len() as int)[i + 1] == above[i + 1]);
            }
        }
    }
}

proof fn lemma_slashed(names: Seq<Seq<char>>)
    requires
        are_names(names),
    ensures
        slashed(names) == with_slashes(names),
    decreases names.len(),
{
    if names.len() > 1 {
        let before = names.drop_last();
        assert forall|i: int| 0 <= i < before.len() implies is_name(#[trigger] before[i]) by {
            assert(before[i] == names[i]);
        }
        lemma_slashed(before);
        lemma_with_slashes_starts(before);
        let path = with_slashes(before);
        assert(is_name(before[0]));
        assert(path.take(before[0].len() as int)[0] == path[0]);
        assert(path[0] == before[0][0]);
        assert(path != seq!['/']) by {
            assert(seq!['/'][0] == '/');
        }
    }
}

/// Whether no name holds a backslash.
pub open spec fn has_no_backslash(names: Seq<Seq<char>>) -> bool {
    forall|i: int, j: int|
        0 <= i < names.len() && 0 <= j < names[i].len() ==> #[trigger] names[i][j] != '\\'
}

proof fn lemma_forward_slashed(names: Seq<Seq<char>>)
    requires
        has_no_backslash(names),
    ensures
        forward_slashed(with_slashes(names)) == with_slashes(names),
    decreases names.len(),
{
    if names.len() > 0 {
        let before = names.drop_last();
        assert forall|i: int, j: int| 0 <= i < before.len() && 0 <= j < before[i].len() implies
            #[trigger] before[i][j] != '\\' by {
            assert(before[i] == names[i]);
            assert(names[i][j] != '\\');
        }
        lemma_forward_slashed(before);
        let path = with_slashes(names);
        let last = names[names.len() - 1];
        assert forall|k: int| 0 <= k < path.len() implies forward_slashed(path)[k] == path[k] by {
            if names.len() == 1 {
                assert(path[k] == names[0][k]);
            } else {
                let head = with_slashes(before);
                if k < head.len() {
                    assert(forward_slashed(head)[k] == head[k]);
                    assert(path[k] == head[k]);
                } else if k > head.len() {
                    assert(path[k] == last[k - head.len() - 1]);
                    assert(names[names.len() - 1][k - head.len() - 1] != '\\');
                }
            }
        }
        assert(forward_slashed(path) =~= path);
    }
}

proof fn lemma_root_parts(roots: Seq<String>, names: Seq<Seq<Seq<char>>>, index: int)
    requires
        are_told_by(roots, names),
        0 <= index < roots.len(),
    ensures
        root_parts(roots)[index] == seq![seq!['/']] + names[index],
{
    assert(are_names(names[index]));
    lemma_full_path_parts(names[index]);
}

/// A change of a source file that lies in none of the watched repositories
/// matters, and so does one of a repository's own files that tell of a change.
pub proof fn law_changes_outside_the_repositories_matter(
    roots: Vec<String>,
    root_names: Seq<Seq<Seq<char>>>,
    events: Vec<WatchEvent>,
    verdict: EventVerdict,
    event: int,
    path: int,
    names: Seq<Seq<char>>,
)
    requires
        call_ensures(judge_events, (&roots, &events), verdict),
        are_told_by(roots@, root_names),
        0 <= event < events@.len(),
        events@[event].kind != WatchEventKind::Harmless,
        0 <= path < events@[event].paths@.len(),
        are_names(names),
        events@[event].paths@[path]@ == full_path(names),
        is_source(names),
        forall|r: int| 0 <= r < root_names.len() ==> !is_in(names, #[trigger] root_names[r]),
    ensures
        verdict is Matters,
{
    let parts = path_parts(full_path(names));
    lemma_source_path(names);
    lemma_owner_root(parts, root_parts(roots@));
    assert forall|r: int| 0 <= r < roots@.len() implies !parts_below(
        parts,
        #[trigger] root_parts(roots@)[r],
    ) by {
        assert(are_names(root_names[r]));
        lemma_root_parts(roots@, root_names, r);
        lemma_full_path_parts(root_names[r]);
        lemma_is_in(names, root_names[r]);
    }
    assert(event_path_matters(events@[event], path, roots@));
    assert(event_matters(events@[event], roots@));
}

/// A change of one of a repository's own files that tell of a change matters
/// wherever the repository lies.
pub proof fn law_changes_of_repositories_matter(
    roots: Vec<String>,
    events: Vec<WatchEvent>,
    verdict: EventVerdict,
    event: int,
    path: int,
    above: Seq<Seq<char>>,
    below: Seq<Seq<char>>,
)
    requires
        call_ensures(judge_events, (&roots, &events), verdict),
        0 <= event < events@.len(),
        events@[event].kind != WatchEventKind::Harmless,
        0 <= path < events@[event].paths@.len(),
        are_names(above + seq![".git"@] + below),
        is_source(above),
        events@[event].paths@[path]@ == full_path(above + seq![".git"@] + below),
        tells_of_change(below),
    ensures
        verdict is Matters,
{
    lemma_repository_path(above, below);
    assert(event_path_matters(events@[event], path, roots@));
    assert(event_matters(events@[event], roots@));
}

/// Where events were lost everything may have changed; where nothing but
/// harmless events came, nothing has, and no repository is asked anything.
pub proof fn law_lost_events_matter_and_harmless_ones_do_not(
    roots: Vec<String>,
    events: Vec<WatchEvent>,
    verdict: EventVerdict,
)
    requires
        call_ensures(judge_events, (&roots, &events), verdict),
    ensures
        (exists|e: int|
            0 <= e < events@.len() && (#[trigger] events@[e]).need_rescan && events@[e].kind
                != WatchEventKind::Harmless) ==> verdict is Matters,
        (forall|e: int|
            0 <= e < events@.len() ==> (#[trigger] events@[e]).kind == WatchEventKind::Harmless)
            ==> (verdict matches EventVerdict::AskRepositories(questions) && forall|
            r: int,
            text: Seq<char>,
        |
            0 <= r < questions@.len() ==> !#[trigger] questions@[r]@.contains(text)),
{
    if exists|e: int|
        0 <= e < events@.len() && (#[trigger] events@[e]).need_rescan && events@[e].kind
            != WatchEventKind::Harmless {
        let e = choose|e: int|
            0 <= e < events@.len() && (#[trigger] events@[e]).need_rescan && events@[e].kind
                != WatchEventKind::Harmless;
        assert(event_matters(events@[e], roots@));
    }
    if forall|e: int|
        0 <= e < events@.len() ==> (#[trigger] events@[e]).kind == WatchEventKind::Harmless {
        assert forall|e: int| 0 <= e < events@.len() implies !event_matters(
            #[trigger] events@[e],
            roots@,
        ) by {
            assert(events@[e].kind == WatchEventKind::Harmless);
        }
        if let EventVerdict::AskRepositories(questions) = verdict {
            assert forall|r: int, text: Seq<char>| 0 <= r < questions@.len() implies
                !#[trigger] questions@[r]@.contains(text) by {
                assert forall|e: int| 0 <= e < events@.len() implies !#[trigger] event_asks(
                    events@[e],
                    roots@,
                    r,
                    text,
                ) by {
                    assert(events@[e].kind == WatchEventKind::Harmless);
                }
            }
        }
    }
}

/// Unless the events matter by themselves, the change of every source file in a
/// watched repository is asked about: the repository is the innermost one that
/// the file lies in, and the file is told by its path in the repository.
pub proof fn law_changed_sources_are_asked_about(
    roots: Vec<String>,
    root_names: Seq<Seq<Seq<char>>>,
    events: Vec<WatchEvent>,
    questions: Vec<TextSet>,
    event: int,
    path: int,
    names: Seq<Seq<char>>,
) -> (repository: int)
    requires
        call_ensures(judge_events, (&roots, &events), EventVerdict::AskRepositories(questions)),
        are_told_by(roots@, root_names),
        0 <= event < events@.len(),
        events@[event].kind != WatchEventKind::Harmless,
        0 <= path < events@[event].paths@.len(),
        are_names(names),
        events@[event].paths@[path]@ == full_path(names),
        is_source(names),
        has_no_backslash(names),
        roots@.len() <= usize::MAX,
    ensures
        0 <= repository < roots@.len(),
        questions@.len() == roots@.len(),
        is_in(names, root_names[repository]),
        names.len() > root_names[repository].len(),
        forall|r: int|
            0 <= r < roots@.len() && is_in(names, #[trigger] root_names[r]) ==> root_names[r].len()
                <= root_names[repository].len(),
        questions@[repository]@.contains(
            with_slashes(names.skip(root_names[repository].len() as int)),
        ),
{
    let parts = path_parts(full_path(names));
    let all = root_parts(roots@);
    lemma_full_path_parts(names);
    lemma_source_path(names);
    lemma_owner_root(parts, all);
    assert(!event_matters(events@[event], roots@));
    assert(!event_path_matters(events@[event], path, roots@));
    let r = owner_root(parts, all)->0;
    assert forall|i: int| 0 <= i < roots@.len() implies (parts_below(parts, #[trigger] all[i])
        <==> is_in(names, root_names[i])) && all[i].len() == root_names[i].len() + 1 by {
        assert(are_names(root_names[i]));
        lemma_root_parts(roots@, root_names, i);
        lemma_full_path_parts(root_names[i]);
        lemma_is_in(names, root_names[i]);
    }
    assert forall|i: int| 0 <= i < roots@.len() && is_in(names, #[trigger] root_names[i]) implies
        root_names[i].len() <= root_names[r].len() by {
        assert(parts_below(parts, all[i]));
    }
    assert(are_names(root_names[r]));
    lemma_root_parts(roots@, root_names, r);
    let rest = names.skip(root_names[r].len() as int);
    assert(parts.skip(all[r].len() as int) =~= rest);
    assert(are_names(rest)) by {
        assert forall|i: int| 0 <= i < rest.len() implies is_name(#[trigger] rest[i]) by {
            assert(rest[i] == names[i + root_names[r].len()]);
        }
    }
    lemma_slashed(rest);
    assert(has_no_backslash(rest)) by {
        assert forall|i: int, j: int| 0 <= i < rest.len() && 0 <= j < rest[i].len() implies
            #[trigger] rest[i][j] != '\\' by {
            assert(rest[i] == names[i + root_names[r].len()]);
            assert(names[i + root_names[r].len()][j] != '\\');
        }
    }
    lemma_forward_slashed(rest);
    assert(path_verdict(parts, all) == PathVerdict::AskRepository(r as usize));
    assert(path_asks(events@[event].paths@[path]@, roots@, r, with_slashes(rest)));
    assert(event_asks(events@[event], roots@, r, with_slashes(rest)));
    r
}

/// Whether some bytes hold no zero.
pub open spec fn has_no_zero(bytes: Seq<u8>) -> bool {
    forall|i: int| 0 <= i < bytes.len() ==> bytes[i] != 0
}

proof fn lemma_open_piece(bytes: Seq<u8>, piece: Seq<u8>)
    requires
        has_no_zero(piece),
    ensures
        zero_pieces(bytes).len() > 0,
        zero_pieces(bytes + piece) == zero_pieces(bytes).drop_last().push(
            zero_pieces(bytes).last() + piece,
        ),
    decreases bytes.len() + piece.len(),
{
    if piece.len() == 0 {
        if bytes.len() > 0 {
            lemma_open_piece(bytes.drop_last(), Seq::empty());
        }
        assert(bytes + piece =~= bytes);
        assert(zero_pieces(bytes).last() + piece =~= zero_pieces(bytes).last());
        assert(zero_pieces(bytes).drop_last().push(zero_pieces(bytes).last()) =~= zero_pieces(
            bytes,
        ));
    } else {
        let head = piece.drop_last();
        lemma_open_piece(bytes, head);
        let whole = bytes + piece;
        assert(whole.drop_last() =~= bytes + head);
        assert(whole.last() == piece.last());
        let before = zero_pieces(bytes + head);
        let own = zero_pieces(bytes);
        assert(before.drop_last() =~= own.drop_last());
        assert((own.last() + head).push(piece.last()) =~= own.last() + piece);
    }
}

proof fn lemma_query_pieces(paths: Seq<Seq<char>>)
    requires
        forall|i: int| 0 <= i < paths.len() ==> has_no_zero(encode_utf8(#[trigger] paths[i])),
    ensures
        zero_pieces(query_bytes(paths)) == paths.map_values(
            |path: Seq<char>| encode_utf8(path),
        ).push(Seq::empty()),
    decreases paths.len(),
{
    let encoded = paths.map_values(|path: Seq<char>| encode_utf8(path));
    if paths.len() == 0 {
        assert(zero_pieces(query_bytes(paths)) =~= encoded.push(Seq::empty()));
    } else {
        let before = paths.drop_last();
        assert forall|i: int| 0 <= i < before.len() implies has_no_zero(
            encode_utf8(#[trigger] before[i]),
        ) by {
            assert(before[i] == paths[i]);
        }
        lemma_query_pieces(before);
        let last = encode_utf8(paths.last());
        assert(has_no_zero(encode_utf8(paths[paths.len() - 1])));
        let head = query_bytes(before);
        lemma_open_piece(head, last);
        let all = head + last + seq![0u8];
        assert(query_bytes(paths) == all);
        assert(all.drop_last() =~= head + last);
        assert(Seq::<u8>::empty() + last =~= last);
        assert(zero_pieces(head).drop_last() =~= before.map_values(
            |path: Seq<char>| encode_utf8(path),
        ));
        assert(zero_pieces(all) =~= encoded.push(Seq::empty()));
    }
}

/// What a repository answers is read as what it ignores: where it names some
/// files, all of those that it was asked about are ignored just where each is
/// among them. An answer that came with a failure is none.
pub proof fn law_answers_name_what_is_ignored(
    asked: TextSet,
    ignored: TextSet,
    output: Vec<u8>,
    status: Option<i32>,
    answer: Option<bool>,
)
    requires
        asked.wf(),
        call_ensures(ignore_query, (&ignored,), output),
        call_ensures(ignores_all, (&asked, status, &output), answer),
        forall|path: Seq<char>| #[trigger]
            ignored@.contains(path) ==> has_no_zero(encode_utf8(path)),
        forall|path: Seq<char>| #[trigger] asked@.contains(path) ==> path.len() > 0,
    ensures
        answer is Some <==> status == Some(0i32) || status == Some(1i32),
        answer is Some ==> (answer->0 <==> asked@.subset_of(ignored@)),
{
    let list = ignored.listed();
    ignored.lemma_listed_set();
    assert forall|i: int| 0 <= i < list.len() implies has_no_zero(encode_utf8(#[trigger] list[i])) by {
        assert(list.contains(list[i]));
        assert(ignored@.contains(list[i]));
    }
    lemma_query_pieces(list);
    let pieces = zero_pieces(output@);
    let encoded = list.map_values(|path: Seq<char>| encode_utf8(path));
    assert(pieces == encoded.push(Seq::empty()));
    assert forall|path: Seq<char>| asked@.contains(path) implies (names_path(
        output@,
        encode_utf8(path),
    ) <==> ignored@.contains(path)) by {
        encode_utf8_decode_utf8(path);
        assert(encode_utf8(path).len() > 0) by {
            if encode_utf8(path).len() == 0 {
                assert(encode_utf8(path) =~= Seq::<u8>::empty());
                assert(decode_utf8(encode_utf8(path)).len() == 0);
            }
        }
        if names_path(output@, encode_utf8(path)) {
            let k = choose|k: int| 0 <= k < pieces.len() && pieces[k] == encode_utf8(path);
            assert(k < encoded.len());
            assert(encoded[k] == encode_utf8(list[k]));
            encode_utf8_decode_utf8(list[k]);
            assert(list[k] == path);
            assert(list.contains(path));
        }
        if ignored@.contains(path) {
            assert(list.contains(path));
            let k = choose|k: int| 0 <= k < list.len() && list[k] == path;
            assert(pieces[k] == encode_utf8(path));
        }
    }
    if answer is Some {
        if answer->0 {
            assert forall|path: Seq<char>| asked@.contains(path) implies ignored@.contains(path) by {
                assert(names_path(output@, encode_utf8(path)));
            }
        } else {
            let path = choose|path: Seq<char>| #[trigger]
                asked@.contains(path) && !names_path(output@, encode_utf8(path));
            assert(!ignored@.contains(path));
        }
    }
}

} // verus!
