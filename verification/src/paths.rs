//! Paths as text.
//!
//! A path is a string whose components are separated by `/`. It is read as it
//! is written: nothing is normalised, and no file system is asked. The
//! functions here say how a path is cut into directory, file name and
//! extension, how two paths are joined, and how a path is turned into a flat
//! name. Each has a specification over `Seq<char>` and an executable
//! counterpart that is proved to compute it.

use vstd::prelude::*;
use vstd::string::StrSliceExecFns;
use vstd::string::StringExecFns;

verus! {

/// The character that separates the components of a path.
pub const SEPARATOR: char = '/';

/// The character that takes the separator's place in a flat name, and that
/// starts an extension.
pub const DOT: char = '.';

/// Position of the last occurrence of `mark` in `text`, or -1 where `text`
/// does not hold it.
pub open spec fn last_index_of(text: Seq<char>, mark: char) -> int
    decreases text.len(),
{
    if text.len() == 0 {
        -1
    } else if text.last() == mark {
        text.len() - 1
    } else {
        last_index_of(text.drop_last(), mark)
    }
}

/// The directory that holds `path`: the text before its last separator.
///
/// The root `/` and the empty path have no parent. A path without a separator
/// lies in the empty path, and a path directly under the root lies in `/`.
pub open spec fn parent_of(path: Seq<char>) -> Option<Seq<char>> {
    let cut = last_index_of(path, SEPARATOR);
    if cut < 0 {
        if path.len() == 0 {
            None
        } else {
            Some(Seq::empty())
        }
    } else if cut == 0 {
        if path.len() == 1 {
            None
        } else {
            Some(seq![SEPARATOR])
        }
    } else {
        Some(path.take(cut))
    }
}

/// The last component of `path`: the text after its last separator.
pub open spec fn file_name_of(path: Seq<char>) -> Seq<char> {
    path.skip(last_index_of(path, SEPARATOR) + 1)
}

/// The extension of `path`: the text after the last dot of its file name.
///
/// A file name without a dot has none, and neither has one whose only dot is
/// its first character.
pub open spec fn extension_of(path: Seq<char>) -> Option<Seq<char>> {
    let name = file_name_of(path);
    let dot = last_index_of(name, DOT);
    if dot <= 0 {
        None
    } else {
        Some(name.skip(dot + 1))
    }
}

/// `rest` taken from the directory `base`.
///
/// A `rest` that starts at the root stands for itself. Otherwise it follows
/// `base`, with one separator between them unless `base` is empty or ends
/// with one.
pub open spec fn join_of(base: Seq<char>, rest: Seq<char>) -> Seq<char> {
    if rest.len() > 0 && rest[0] == SEPARATOR {
        rest
    } else if base.len() == 0 || base.last() == SEPARATOR {
        base + rest
    } else {
        base + seq![SEPARATOR] + rest
    }
}

/// `path` with a dot in the place of every separator.
pub open spec fn flatten_of(path: Seq<char>) -> Seq<char> {
    Seq::new(path.len(), |i: int| if path[i] == SEPARATOR { DOT } else { path[i] })
}

/// The directory reached from `path` by going up `steps` times.
pub open spec fn nth_parent(path: Seq<char>, steps: nat) -> Option<Seq<char>>
    decreases steps,
{
    if steps == 0 {
        Some(path)
    } else {
        match parent_of(path) {
            None => None,
            Some(above) => nth_parent(above, (steps - 1) as nat),
        }
    }
}

/// Whether `dir` is reached from `path` by going up at least once.
pub open spec fn is_ancestor(dir: Seq<char>, path: Seq<char>) -> bool {
    exists|steps: nat| steps >= 1 && #[trigger] nth_parent(path, steps) == Some(dir)
}

/// The directories passed on the way up from `path`, nearest first, ending
/// before `stop` is reached, or at the top where `stop` is never reached.
pub open spec fn walk_up(path: Seq<char>, stop: Seq<char>) -> Seq<Seq<char>>
    decreases path.len(),
{
    match parent_of(path) {
        None => Seq::empty(),
        Some(above) => {
            if above == stop {
                Seq::empty()
            } else {
                proof {
                    lemma_parent_is_shorter(path);
                }
                seq![above] + walk_up(above, stop)
            }
        },
    }
}

/// Whether `dir` lies on the way up from `path` and before `stop`: it is
/// above `path`, and where `stop` is above `path` too, `stop` is above `dir`.
pub open spec fn lies_between(dir: Seq<char>, stop: Seq<char>, path: Seq<char>) -> bool {
    is_ancestor(dir, path) && (is_ancestor(stop, path) ==> is_ancestor(stop, dir))
}

/// The characters of `text`, in order.
pub fn chars_of(text: &str) -> (chars: Vec<char>)
    ensures
        chars@ == text@,
{
    let mut chars: Vec<char> = Vec::new();
    for c in walk: text.chars()
        invariant
            walk.seq() == text@,
            chars@ == text@.take(walk.index()),
    {
        chars.push(c);
    }
    chars
}

/// Whether two texts hold the same characters.
pub fn text_eq(left: &str, right: &str) -> (same: bool)
    ensures
        same == (left@ == right@),
{
    let a = left.to_owned();
    let b = right.to_owned();
    a == b
}

/// Finds the last occurrence of `mark` among `chars`.
pub fn last_index(chars: &Vec<char>, mark: char) -> (found: Option<usize>)
    ensures
        match found {
            Some(at) => at < chars.len() && at == last_index_of(chars@, mark),
            None => last_index_of(chars@, mark) == -1,
        },
{
    let mut at: usize = chars.len();
    while at > 0
        invariant
            at <= chars.len(),
            forall|j: int| at <= j < chars.len() ==> chars@[j] != mark,
        decreases at,
    {
        at = at - 1;
        if chars[at] == mark {
            proof {
                lemma_last_index_is(chars@, mark, at as int);
            }
            return Some(at);
        }
    }
    proof {
        lemma_last_index_is(chars@, mark, -1);
    }
    None
}

/// The directory that holds `path`, if it has one.
pub fn parent(path: &str) -> (above: Option<String>)
    ensures
        above.deep_view() == parent_of(path@),
{
    let chars = chars_of(path);
    match last_index(&chars, SEPARATOR) {
        None => {
            if chars.len() == 0 {
                None
            } else {
                Some(String::new())
            }
        },
        Some(cut) => {
            if cut == 0 {
                if chars.len() == 1 {
                    None
                } else {
                    proof {
                        reveal_strlit("/");
                        assert("/"@ =~= seq![SEPARATOR]);
                    }
                    Some("/".to_owned())
                }
            } else {
                Some(path.substring_char(0, cut).to_owned())
            }
        },
    }
}

/// The extension of `path`, if it has one.
pub fn extension(path: &str) -> (ext: Option<String>)
    ensures
        ext.deep_view() == extension_of(path@),
{
    let chars = chars_of(path);
    let start: usize = match last_index(&chars, SEPARATOR) {
        None => 0,
        Some(cut) => cut + 1,
    };
    let name = path.substring_char(start, chars.len());
    let name_chars = chars_of(name);
    match last_index(&name_chars, DOT) {
        None => None,
        Some(dot) => {
            if dot == 0 {
                None
            } else {
                Some(name.substring_char(dot + 1, name_chars.len()).to_owned())
            }
        },
    }
}

/// `rest` taken from the directory `base`.
pub fn join(base: &str, rest: &str) -> (joined: String)
    ensures
        joined@ == join_of(base@, rest@),
{
    let rest_len: usize = rest.unicode_len();
    if rest_len > 0 && rest.get_char(0) == SEPARATOR {
        return rest.to_owned();
    }
    let base_len: usize = base.unicode_len();
    let mut joined = base.to_owned();
    if base_len > 0 && base.get_char(base_len - 1) != SEPARATOR {
        proof {
            reveal_strlit("/");
            assert("/"@ =~= seq![SEPARATOR]);
        }
        joined.append("/");
    }
    joined.append(rest);
    joined
}

/// `path` with a dot in the place of every separator.
pub fn flatten(path: &str) -> (flat: String)
    ensures
        flat@ == flatten_of(path@),
{
    let chars = chars_of(path);
    let mut flat = String::new();
    let mut start: usize = 0;
    let mut at: usize = 0;
    proof {
        reveal_strlit(".");
        assert("."@ =~= seq![DOT]);
    }
    while at < chars.len()
        invariant
            chars@ == path@,
            start <= at <= chars.len(),
            flat@ == flatten_of(path@.take(start as int)),
            forall|j: int| start <= j < at ==> path@[j] != SEPARATOR,
            "."@ == seq![DOT],
        decreases chars.len() - at,
    {
        if chars[at] == SEPARATOR {
            flat.append(path.substring_char(start, at));
            flat.append(".");
            assert(flat@ =~= flatten_of(path@.take(at + 1)));
            start = at + 1;
        }
        at = at + 1;
    }
    flat.append(path.substring_char(start, at));
    assert(flat@ =~= flatten_of(path@));
    flat
}

/// `last_index_of` finds an occurrence, and no occurrence follows it.
pub proof fn lemma_last_index_of(text: Seq<char>, mark: char)
    ensures
        -1 <= last_index_of(text, mark) < text.len(),
        last_index_of(text, mark) >= 0 ==> text[last_index_of(text, mark)] == mark,
        forall|j: int| last_index_of(text, mark) < j < text.len() ==> text[j] != mark,
    decreases text.len(),
{
    if text.len() > 0 && text.last() != mark {
        let front = text.drop_last();
        lemma_last_index_of(front, mark);
        assert forall|j: int| last_index_of(text, mark) < j < text.len() implies text[j]
            != mark by {
            if j < front.len() {
                assert(front[j] == text[j]);
            }
        }
    }
}

/// An occurrence that no occurrence follows is the one `last_index_of` finds.
pub proof fn lemma_last_index_is(text: Seq<char>, mark: char, at: int)
    requires
        -1 <= at < text.len(),
        at >= 0 ==> text[at] == mark,
        forall|j: int| at < j < text.len() ==> text[j] != mark,
    ensures
        last_index_of(text, mark) == at,
{
    lemma_last_index_of(text, mark);
}

/// A parent is strictly shorter than the path it is the parent of.
pub proof fn lemma_parent_is_shorter(path: Seq<char>)
    ensures
        parent_of(path) matches Some(above) ==> above.len() < path.len(),
{
    lemma_last_index_of(path, SEPARATOR);
}

/// Going up `steps` times takes at least `steps` characters off a path.
pub proof fn lemma_nth_parent_is_shorter(path: Seq<char>, steps: nat)
    ensures
        nth_parent(path, steps) matches Some(dir) ==> dir.len() + steps <= path.len(),
    decreases steps,
{
    if steps > 0 {
        lemma_parent_is_shorter(path);
        match parent_of(path) {
            None => {},
            Some(above) => {
                lemma_nth_parent_is_shorter(above, (steps - 1) as nat);
            },
        }
    }
}

/// Going up `first` times and then `then` times is going up `first + then`
/// times.
pub proof fn lemma_nth_parent_add(path: Seq<char>, first: nat, then: nat)
    ensures
        nth_parent(path, first + then) == match nth_parent(path, first) {
            None => None,
            Some(dir) => nth_parent(dir, then),
        },
    decreases first,
{
    if first > 0 {
        match parent_of(path) {
            None => {},
            Some(above) => {
                lemma_nth_parent_add(above, (first - 1) as nat, then);
                assert((first - 1) as nat + then == (first + then - 1) as nat);
            },
        }
    }
}

/// No path lies above itself.
pub proof fn lemma_not_own_ancestor(path: Seq<char>)
    ensures
        !is_ancestor(path, path),
{
    if is_ancestor(path, path) {
        let steps: nat = choose|steps: nat|
            steps >= 1 && #[trigger] nth_parent(path, steps) == Some(path);
        lemma_nth_parent_is_shorter(path, steps);
    }
}

/// What lies above the parent of a path lies above the path, and what lies
/// above a path is its parent or lies above its parent.
pub proof fn lemma_ancestor_step(dir: Seq<char>, path: Seq<char>)
    ensures
        is_ancestor(dir, path) <==> (parent_of(path) matches Some(above) && (dir == above
            || is_ancestor(dir, above))),
{
    if is_ancestor(dir, path) {
        let steps: nat = choose|steps: nat|
            steps >= 1 && #[trigger] nth_parent(path, steps) == Some(dir);
        let above = parent_of(path)->0;
        if steps > 1 {
            assert(nth_parent(above, (steps - 1) as nat) == Some(dir));
        }
    }
    if parent_of(path) is Some {
        let above = parent_of(path)->0;
        if dir == above {
            assert(nth_parent(above, 0) == Some(dir));
            assert(nth_parent(path, 1) == Some(dir));
        } else if is_ancestor(dir, above) {
            let steps: nat = choose|steps: nat|
                steps >= 1 && #[trigger] nth_parent(above, steps) == Some(dir);
            assert(nth_parent(path, steps + 1) == Some(dir));
        }
    }
}

/// What lies above an ancestor of a path lies above the path.
pub proof fn lemma_ancestor_transitive(top: Seq<char>, dir: Seq<char>, path: Seq<char>)
    requires
        is_ancestor(top, dir),
        is_ancestor(dir, path),
    ensures
        is_ancestor(top, path),
{
    let first: nat = choose|steps: nat|
        steps >= 1 && #[trigger] nth_parent(path, steps) == Some(dir);
    let then: nat = choose|steps: nat| steps >= 1 && #[trigger] nth_parent(dir, steps) == Some(top);
    lemma_nth_parent_add(path, first, then);
    assert(nth_parent(path, first + then) == Some(top));
}

/// The way up from `path` that ends before `stop` passes exactly the
/// directories that lie between the two, and never `stop` itself.
pub proof fn lemma_walk_up(path: Seq<char>, stop: Seq<char>)
    ensures
        forall|dir: Seq<char>|
            walk_up(path, stop).contains(dir) <==> #[trigger] lies_between(dir, stop, path),
        !walk_up(path, stop).contains(stop),
        walk_up(path, stop).no_duplicates(),
    decreases path.len(),
{
    let way = walk_up(path, stop);
    lemma_not_own_ancestor(stop);
    match parent_of(path) {
        None => {
            assert forall|dir: Seq<char>| way.contains(dir) <==> #[trigger] lies_between(
                dir,
                stop,
                path,
            ) by {
                lemma_ancestor_step(dir, path);
            }
        },
        Some(above) => {
            lemma_parent_is_shorter(path);
            lemma_ancestor_step(stop, path);
            if above == stop {
                assert forall|dir: Seq<char>| way.contains(dir) <==> #[trigger] lies_between(
                    dir,
                    stop,
                    path,
                ) by {
                    lemma_ancestor_step(dir, path);
                    if is_ancestor(dir, stop) && is_ancestor(stop, dir) {
                        lemma_ancestor_transitive(stop, dir, stop);
                    }
                }
            } else {
                let rest = walk_up(above, stop);
                lemma_walk_up(above, stop);
                lemma_not_own_ancestor(above);
                assert(way =~= seq![above] + rest);
                assert forall|dir: Seq<char>| way.contains(dir) <==> #[trigger] lies_between(
                    dir,
                    stop,
                    path,
                ) by {
                    lemma_ancestor_step(dir, path);
                    lemma_ancestor_step(stop, above);
                    if way.contains(dir) {
                        let i: int = choose|i: int| 0 <= i < way.len() && way[i] == dir;
                        if i > 0 {
                            assert(rest[i - 1] == dir);
                            assert(rest.contains(dir));
                            assert(lies_between(dir, stop, above));
                        }
                    }
                    if lies_between(dir, stop, path) {
                        if dir == above {
                            assert(way[0] == dir);
                        } else {
                            assert(lies_between(dir, stop, above));
                            assert(rest.contains(dir));
                            let i: int = choose|i: int| 0 <= i < rest.len() && rest[i] == dir;
                            assert(way[i + 1] == dir);
                        }
                    }
                }
                assert(!rest.contains(above)) by {
                    if rest.contains(above) {
                        assert(lies_between(above, stop, above));
                    }
                }
                assert forall|i: int, j: int|
                    0 <= i < way.len() && 0 <= j < way.len() && i != j implies way[i] != way[j] by {
                    if i > 0 && j > 0 {
                        assert(way[i] == rest[i - 1] && way[j] == rest[j - 1]);
                    } else if i == 0 {
                        assert(way[j] == rest[j - 1]);
                        assert(rest.contains(way[j]));
                    } else {
                        assert(way[i] == rest[i - 1]);
                        assert(rest.contains(way[i]));
                    }
                }
                if way.contains(stop) {
                    assert(lies_between(stop, stop, path));
                }
            }
        },
    }
}

/// Two paths get the same flat name only if they are equally long and
/// differ at most where the one has a separator and the other a dot.
pub proof fn lemma_flatten_same(one: Seq<char>, other: Seq<char>)
    requires
        flatten_of(one) == flatten_of(other),
    ensures
        one.len() == other.len(),
        forall|i: int|
            0 <= i < one.len() ==> one[i] == other[i] || ((one[i] == SEPARATOR || one[i] == DOT)
                && (other[i] == SEPARATOR || other[i] == DOT)),
{
    assert(flatten_of(one).len() == one.len());
    assert(flatten_of(other).len() == other.len());
    assert forall|i: int| 0 <= i < one.len() implies one[i] == other[i] || ((one[i] == SEPARATOR
        || one[i] == DOT) && (other[i] == SEPARATOR || other[i] == DOT)) by {
        assert(flatten_of(one)[i] == flatten_of(other)[i]);
        assert(flatten_of(one)[i] == if one[i] == SEPARATOR {
            DOT
        } else {
            one[i]
        });
        assert(flatten_of(other)[i] == if other[i] == SEPARATOR {
            DOT
        } else {
            other[i]
        });
    }
}

/// Joining different paths that do not start at the root onto one base
/// gives different paths.
pub proof fn lemma_join_apart(base: Seq<char>, one: Seq<char>, other: Seq<char>)
    requires
        one != other,
        !(one.len() > 0 && one[0] == SEPARATOR),
        !(other.len() > 0 && other[0] == SEPARATOR),
    ensures
        join_of(base, one) != join_of(base, other),
{
    let front = if base.len() == 0 || base.last() == SEPARATOR {
        base
    } else {
        base + seq![SEPARATOR]
    };
    assert(join_of(base, one) =~= front + one);
    assert(join_of(base, other) =~= front + other);
    if front + one == front + other {
        assert((front + one).skip(front.len() as int) =~= one);
        assert((front + other).skip(front.len() as int) =~= other);
    }
}

} // verus!
