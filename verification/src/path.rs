//! Paths as texts: their parts, and which path lies under which.
use crate::error::StateError;
use crate::text::{is_text, lemma_texts_push, texts};
use vstd::prelude::*;
use vstd::string::*;

verus! {

/// The parts of a path between its slashes. A path without a slash has one part.
pub open spec fn parts(path: Seq<char>) -> Seq<Seq<char>>
    decreases path.len(),
{
    if path.len() == 0 {
        seq![Seq::empty()]
    } else {
        let before = parts(path.drop_last());
        if path.last() == '/' {
            before.push(Seq::empty())
        } else {
            before.update(before.len() - 1, before.last().push(path.last()))
        }
    }
}

/// A path has at least one part.
pub proof fn lemma_parts_nonempty(path: Seq<char>)
    ensures
        parts(path).len() >= 1,
    decreases path.len(),
{
    if path.len() > 0 {
        lemma_parts_nonempty(path.drop_last());
    }
}

/// The parts of a path.
pub fn split_path(path: &String) -> (list: Vec<String>)
    ensures
        texts(list@) == parts(path@),
        list.len() >= 1,
{
    let len: usize = path.as_str().unicode_len();
    let mut list: Vec<String> = Vec::new();
    let mut start: usize = 0;
    let mut i: usize = 0;
    assert(path@.subrange(0, 0) =~= Seq::<char>::empty());
    assert(texts(list@).push(path@.subrange(0, 0)) =~= parts(path@.take(0)));
    while i < len
        invariant
            start <= i <= len,
            len == path@.len(),
            texts(list@).push(path@.subrange(start as int, i as int)) == parts(
                path@.take(i as int),
            ),
        decreases len - i,
    {
        let ghost taken = path@.take(i + 1);
        let ghost before = texts(list@).push(path@.subrange(start as int, i as int));
        assert(taken.drop_last() =~= path@.take(i as int));
        assert(taken.last() == path@[i as int]);
        if path.as_str().get_char(i) == '/' {
            let part: String = path.as_str().substring_char(start, i).to_owned();
            proof {
                lemma_texts_push(list@, part);
                assert(path@.subrange(i + 1, i + 1) =~= Seq::<char>::empty());
                assert(before.push(Seq::empty()) =~= texts(list@.push(part)).push(
                    path@.subrange(i + 1, i + 1),
                ));
            }
            list.push(part);
            start = i + 1;
        } else {
            assert(path@.subrange(start as int, i + 1) =~= path@.subrange(
                start as int,
                i as int,
            ).push(path@[i as int]));
            assert(before.update(before.len() - 1, before.last().push(path@[i as int]))
                =~= texts(list@).push(path@.subrange(start as int, i + 1)));
        }
        i = i + 1;
    }
    let part: String = path.as_str().substring_char(start, len).to_owned();
    proof {
        lemma_texts_push(list@, part);
        assert(path@.take(len as int) =~= path@);
    }
    list.push(part);
    list
}

/// The last part of a path.
pub fn file_name(path: &String) -> (name: String)
    ensures
        name@ == parts(path@).last(),
{
    let list: Vec<String> = split_path(path);
    let name: String = list[list.len() - 1].clone();
    assert(texts(list@).last() == list@[list@.len() - 1]@);
    name
}

/// Whether a part of a path goes nowhere or up.
pub open spec fn dot_part(part: Seq<char>) -> bool {
    part.len() == 0 || part == "."@ || part == ".."@
}

/// Whether some character of a text is the given one.
pub open spec fn holds_char(text: Seq<char>, c: char) -> bool {
    exists|i: int| 0 <= i < text.len() && #[trigger] text[i] == c
}

/// Whether a text is the location of a folder: no slash at either end, no NUL,
/// and no part that is empty or made of dots.
pub open spec fn folder_location(location: Seq<char>) -> bool {
    &&& !(location.len() > 0 && location[0] == '/')
    &&& !(location.len() > 0 && location.last() == '/')
    &&& !holds_char(location, '\0')
    &&& forall|i: int| 0 <= i < parts(location).len() ==> !dot_part(#[trigger] parts(location)[i])
}

/// Whether a text holds a character.
pub fn has_char(text: &String, c: char) -> (answer: bool)
    ensures
        answer == holds_char(text@, c),
{
    let len: usize = text.as_str().unicode_len();
    let mut i: usize = 0;
    while i < len
        invariant
            i <= len,
            len == text@.len(),
            forall|j: int| 0 <= j < i ==> #[trigger] text@[j] != c,
        decreases len - i,
    {
        if text.as_str().get_char(i) == c {
            assert(text@[i as int] == c);
            return true;
        }
        i = i + 1;
    }
    false
}

/// Whether a text is the location of a folder.
pub fn valid_folder_location(location: &String) -> (valid: bool)
    ensures
        valid == folder_location(location@),
{
    let len: usize = location.as_str().unicode_len();
    if len > 0 && (location.as_str().get_char(0) == '/' || location.as_str().get_char(len - 1)
        == '/') {
        return false;
    }
    if has_char(location, '\0') {
        return false;
    }
    let list: Vec<String> = split_path(location);
    let mut i: usize = 0;
    while i < list.len()
        invariant
            i <= list.len(),
            texts(list@) == parts(location@),
            forall|j: int| 0 <= j < i ==> !dot_part(#[trigger] parts(location@)[j]),
        decreases list.len() - i,
    {
        assert(parts(location@)[i as int] == list@[i as int]@);
        if list[i].as_str().unicode_len() == 0 || is_text(&list[i], ".") || is_text(
            &list[i],
            "..",
        ) {
            assert(dot_part(parts(location@)[i as int]));
            return false;
        }
        i = i + 1;
    }
    true
}

/// Whether a path lies in a folder. Every path lies in the folder without a
/// location.
pub open spec fn in_folder(path: Seq<char>, location: Seq<char>) -> bool {
    location.len() == 0 || (path.len() > location.len() && path.take(location.len() as int)
        == location && path[location.len() as int] == '/')
}

/// Whether a text begins with another one.
pub fn begins_with(text: &String, prefix: &String) -> (answer: bool)
    ensures
        answer == (text@.len() >= prefix@.len() && text@.take(prefix@.len() as int) == prefix@),
{
    let len: usize = prefix.as_str().unicode_len();
    if text.as_str().unicode_len() < len {
        return false;
    }
    let head: String = text.as_str().substring_char(0, len).to_owned();
    assert(text@.subrange(0, len as int) =~= text@.take(len as int));
    crate::text::same_text(&head, prefix)
}

/// Whether a path lies in a folder.
pub fn path_in_folder(path: &String, location: &String) -> (answer: bool)
    ensures
        answer == in_folder(path@, location@),
{
    let len: usize = location.as_str().unicode_len();
    if len == 0 {
        return true;
    }
    if !begins_with(path, location) || path.as_str().unicode_len() <= len {
        return false;
    }
    path.as_str().get_char(len) == '/'
}

/// The parts of a path that name something: slashes that repeat and
/// parts of one dot name nothing.
pub open spec fn components(path: Seq<char>) -> Seq<Seq<char>> {
    parts(path).filter(|part: Seq<char>| part.len() > 0 && part != "."@)
}

/// The parts of a path that name something.
pub fn split_components(path: &String) -> (list: Vec<String>)
    ensures
        texts(list@) == components(path@),
{
    let all: Vec<String> = split_path(path);
    let ghost keep = |part: Seq<char>| part.len() > 0 && part != "."@;
    let ghost from = parts(path@);
    let mut list: Vec<String> = Vec::new();
    let mut i: usize = 0;
    proof {
        assert(from.take(0) =~= Seq::<Seq<char>>::empty());
        assert(from.take(0).filter(keep) =~= Seq::<Seq<char>>::empty()) by {
            reveal(Seq::filter);
        }
        assert(texts(list@) =~= Seq::<Seq<char>>::empty());
    }
    while i < all.len()
        invariant
            i <= all.len(),
            texts(all@) == from,
            from == parts(path@),
            keep == (|part: Seq<char>| part.len() > 0 && part != "."@),
            texts(list@) == from.take(i as int).filter(keep),
        decreases all.len() - i,
    {
        proof {
            let taken = from.take(i + 1);
            assert(taken.drop_last() =~= from.take(i as int));
            assert(taken.last() == all@[i as int]@);
            reveal(Seq::filter);
            lemma_texts_push(list@, all@[i as int]);
        }
        if all[i].as_str().unicode_len() > 0 && !is_text(&all[i], ".") {
            list.push(all[i].clone());
        }
        i = i + 1;
    }
    assert(from.take(from.len() as int) =~= from);
    list
}

/// What a path begins with before the parts that name something: the root of the
/// file system, the current directory, or nothing.
pub open spec fn start_of(path: Seq<char>) -> Seq<Seq<char>> {
    if path.len() > 0 && path[0] == '/' {
        seq!["/"@]
    } else if parts(path)[0] == "."@ {
        seq!["."@]
    } else {
        Seq::empty()
    }
}

/// Whether one path is another one or begins it, part by part.
pub open spec fn lies_under(root: Seq<char>, candidate: Seq<char>) -> bool {
    (start_of(root) + components(root)).is_prefix_of(start_of(candidate) + components(candidate))
}

fn list_parts(path: &String) -> (list: Vec<String>)
    ensures
        texts(list@) == start_of(path@) + components(path@),
{
    let first: Vec<String> = split_path(path);
    assert(texts(first@)[0] == first@[0]@);
    let named: Vec<String> = split_components(path);
    let mut list: Vec<String> = Vec::new();
    if path.as_str().unicode_len() > 0 && path.as_str().get_char(0) == '/' {
        list.push("/".to_owned());
    } else if is_text(&first[0], ".") {
        list.push(".".to_owned());
    }
    assert(texts(list@) =~= start_of(path@));
    let mut i: usize = 0;
    let ghost names = components(path@);
    assert(texts(named@).len() == named.len());
    assert(texts(list@) =~= start_of(path@) + names.take(0));
    while i < named.len()
        invariant
            i <= named.len(),
            names == texts(named@),
            names.len() == named.len(),
            texts(list@) == start_of(path@) + names.take(i as int),
        decreases named.len() - i,
    {
        proof {
            lemma_texts_push(list@, named@[i as int]);
            assert(names[i as int] == named@[i as int]@);
            assert(names.take(i + 1) =~= names.take(i as int).push(names[i as int]));
            assert(start_of(path@) + names.take(i + 1) =~= (start_of(path@) + names.take(
                i as int,
            )).push(names[i as int]));
        }
        list.push(named[i].clone());
        i = i + 1;
    }
    assert(names.take(names.len() as int) =~= names);
    list
}

/// Refuses a path that is the library's root or lies under it.
pub fn reject_under_library(library: &String, candidate: &String) -> (result: Result<
    (),
    StateError,
>)
    ensures
        result == (if lies_under(library@, candidate@) {
            Err::<(), StateError>(StateError::UnderLibraryRoot)
        } else {
            Ok::<(), StateError>(())
        }),
{
    let root: Vec<String> = list_parts(library);
    let path: Vec<String> = list_parts(candidate);
    let ghost a = start_of(library@) + components(library@);
    let ghost b = start_of(candidate@) + components(candidate@);
    assert(texts(root@).len() == root.len());
    assert(texts(path@).len() == path.len());
    if root.len() > path.len() {
        return Ok(());
    }
    let mut i: usize = 0;
    while i < root.len()
        invariant
            i <= root.len() <= path.len(),
            texts(root@) == a,
            texts(path@) == b,
            a == start_of(library@) + components(library@),
            b == start_of(candidate@) + components(candidate@),
            forall|j: int| 0 <= j < i ==> a[j] == b[j],
        decreases root.len() - i,
    {
        assert(a[i as int] == root@[i as int]@);
        assert(b[i as int] == path@[i as int]@);
        if !crate::text::same_text(&root[i], &path[i]) {
            assert(!a.is_prefix_of(b)) by {
                if a.is_prefix_of(b) {
                    assert(a[i as int] == b.subrange(0, a.len() as int)[i as int]);
                }
            }
            return Ok(());
        }
        i = i + 1;
    }
    assert(a =~= b.subrange(0, a.len() as int));
    Err(StateError::UnderLibraryRoot)
}

/// The library's root is refused, and so is every path that extends it.
pub proof fn law_paths_under_the_library_are_refused(library: Seq<char>, rest: Seq<char>)
    ensures
        lies_under(library, library),
        lies_under(library, library + seq!['/'] + rest),
{
    let whole = library + seq!['/'] + rest;
    let a = components(library);
    let head = start_of(library);
    assert((head + a) =~= (head + a).subrange(0, (head + a).len() as int));
    lemma_parts_extend(library, rest);
    lemma_parts_nonempty(library);
    let keep = |part: Seq<char>| part.len() > 0 && part != "."@;
    let left = parts(library);
    let right = parts(rest);
    Seq::filter_distributes_over_add(left, right, keep);
    let b = components(whole);
    assert(b =~= a + right.filter(keep));
    if library.len() == 0 {
        reveal(Seq::filter);
        reveal_strlit(".");
        assert(left =~= seq![Seq::<char>::empty()]);
        assert(left.drop_last() =~= Seq::<Seq<char>>::empty());
        assert(left.drop_last().filter(keep) =~= Seq::<Seq<char>>::empty());
        assert(a =~= Seq::<Seq<char>>::empty());
        assert(head =~= Seq::<Seq<char>>::empty());
        assert((head + a) =~= (start_of(whole) + b).subrange(0, 0));
    } else {
        assert(whole[0] == library[0]);
        assert(parts(whole)[0] == left[0]);
        assert(start_of(whole) == head);
        assert((head + a) =~= (head + b).subrange(0, (head + a).len() as int));
    }
}

proof fn lemma_parts_extend(path: Seq<char>, rest: Seq<char>)
    ensures
        parts(path + seq!['/'] + rest) == parts(path) + parts(rest),
    decreases rest.len(),
{
    let whole = path + seq!['/'] + rest;
    lemma_parts_nonempty(rest);
    if rest.len() == 0 {
        assert(whole.drop_last() =~= path);
        assert(whole.last() == '/');
        assert(parts(path) + parts(rest) =~= parts(path).push(Seq::empty()));
    } else {
        let front = rest.drop_last();
        lemma_parts_extend(path, front);
        lemma_parts_nonempty(front);
        assert(whole.drop_last() =~= path + seq!['/'] + front);
        assert(whole.last() == rest.last());
        let before = parts(path) + parts(front);
        if rest.last() == '/' {
            assert(before.push(Seq::empty()) =~= parts(path) + parts(rest));
        } else {
            assert(before.last() == parts(front).last());
            assert(before.update(before.len() - 1, before.last().push(rest.last())) =~= parts(path)
                + parts(rest));
        }
    }
}

/// The last part of a path is what stands behind its last slash, or the whole path where
/// it holds none.
pub proof fn law_last_parts_follow_the_last_slash(path: Seq<char>)
    ensures
        ({
            let name = parts(path).last();
            let n = path.len() - name.len();
            &&& 0 <= n
            &&& path.skip(n) == name
            &&& forall|i: int| 0 <= i < name.len() ==> #[trigger] name[i] != '/'
            &&& n > 0 ==> path[n - 1] == '/'
        }),
    decreases path.len(),
{
    lemma_parts_nonempty(path);
    if path.len() == 0 {
        assert(path.skip(0) =~= parts(path).last());
    } else {
        let front = path.drop_last();
        law_last_parts_follow_the_last_slash(front);
        lemma_parts_nonempty(front);
        let before = parts(front).last();
        let name = parts(path).last();
        let n = path.len() - name.len();
        if path.last() == '/' {
            assert(name.len() == 0);
            assert(path.skip(n) =~= name);
        } else {
            assert(name == before.push(path.last()));
            assert(path.skip(n) =~= name) by {
                assert forall|i: int| 0 <= i < name.len() implies path.skip(n)[i] == name[i] by {
                    if i < before.len() {
                        assert(front.skip(n)[i] == before[i]);
                    }
                }
            }
        }
    }
}

/// A path lies in a folder where it begins with the folder's path and a slash; every path
/// lies in the folder without a name.
pub proof fn law_folders_hold_what_is_below_them(folder: Seq<char>, rest: Seq<char>)
    ensures
        in_folder(folder + seq!['/'] + rest, folder),
        in_folder(rest, Seq::empty()),
        folder.len() > 0 ==> !in_folder(folder, folder),
        forall|path: Seq<char>| #[trigger]
            in_folder(path, folder) && folder.len() > 0 ==> path == folder + seq!['/'] + path.skip(
                folder.len() as int + 1,
            ),
{
    let n = folder.len() as int;
    let whole = folder + seq!['/'] + rest;
    assert(whole.take(n) =~= folder);
    assert(whole[n] == '/');
    assert forall|path: Seq<char>| #[trigger]
        in_folder(path, folder) && folder.len() > 0 implies path == folder + seq!['/']
        + path.skip(n + 1) by {
        let other = folder + seq!['/'] + path.skip(n + 1);
        assert(path.len() == other.len());
        assert forall|i: int| 0 <= i < path.len() implies path[i] == other[i] by {
            if i < n {
                assert(path.take(n)[i] == folder[i]);
            }
        }
        assert(path =~= other);
    }
}

proof fn lemma_parts_hold_no_slash(path: Seq<char>, i: int)
    requires
        0 <= i < parts(path).len(),
    ensures
        forall|x: int| 0 <= x < parts(path)[i].len() ==> #[trigger] parts(path)[i][x] != '/',
    decreases path.len(),
{
    if path.len() > 0 {
        let front = path.drop_last();
        lemma_parts_nonempty(front);
        if i < parts(front).len() {
            lemma_parts_hold_no_slash(front, i);
        }
    }
}

/// The components of a path stand between its slashes: none is empty, none is the
/// directory itself, and none holds a slash.
pub proof fn law_components_stand_between_slashes(path: String, list: Vec<String>, i: int)
    requires
        call_ensures(split_components, (&path,), list),
        0 <= i < list.len(),
    ensures
        list@[i]@.len() > 0,
        list@[i]@ != "."@,
        forall|x: int| 0 <= x < list@[i]@.len() ==> #[trigger] list@[i]@[x] != '/',
{
    let keep = |part: Seq<char>| part.len() > 0 && part != "."@;
    let all = parts(path@);
    assert(texts(list@)[i] == list@[i]@);
    assert(components(path@) =~= all.filter(keep));
    all.lemma_filter_pred(keep, i);
    assert(keep(all.filter(keep)[i]));
    assert(all.filter(keep).contains(list@[i]@));
    all.lemma_filter_contains_rev(keep, list@[i]@);
    let k = choose|k: int| 0 <= k < all.len() && all[k] == list@[i]@;
    lemma_parts_hold_no_slash(path@, k);
}

} // verus!
