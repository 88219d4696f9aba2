//! Paths inside a workspace: relative, `/` between the names, no `.` and no `..`.
use crate::index_error::{agrees, ErrorView, IndexError};
use crate::text::{
    from_chars,
    is_blank,
    join3,
    opt_int_i64,
    parse_i64,
    parse_signed,
    same_text,
    split_on,
    split_text,
    texts,
    to_chars,
    trim,
    trim_text,
};
use vstd::prelude::*;

verus! {

/// `s` without the slashes that it begins with.
pub open spec fn strip_slashes(s: Seq<char>) -> Seq<char>
    decreases s.len(),
{
    if s.len() > 0 && s[0] == '/' {
        strip_slashes(s.drop_first())
    } else {
        s
    }
}

pub open spec fn has_char(s: Seq<char>, c: char) -> bool {
    exists|i: int| 0 <= i < s.len() && s[i] == c
}

/// Two slashes stand side by side.
pub open spec fn has_double_slash(s: Seq<char>) -> bool {
    exists|i: int| 0 <= i < s.len() - 1 && #[trigger] s[i] == '/' && s[i + 1] == '/'
}

/// A name that stands for another directory than the one it is in.
pub open spec fn is_dot_name(s: Seq<char>) -> bool {
    s == seq!['.'] || s == seq!['.', '.']
}

/// A segment of the path is `.` or `..`.
pub open spec fn has_dot_segment(s: Seq<char>) -> bool {
    exists|i: int| 0 <= i < split_on(s, '/').len() && is_dot_name(#[trigger] split_on(s, '/')[i])
}

/// The path as the index stores it: trimmed, without leading slashes. Backslashes, empty segments
/// and dot segments are refused.
pub open spec fn normalized(path: Seq<char>) -> Result<Seq<char>, ErrorView> {
    let stripped = strip_slashes(trim(path));
    if has_char(trim(path), '\\') || has_double_slash(stripped) || has_dot_segment(stripped) {
        Err(ErrorView::InvalidPath(path))
    } else {
        Ok(stripped)
    }
}

fn holds_char(v: &Vec<char>, c: char) -> (r: bool)
    ensures
        r == has_char(v@, c),
{
    let mut i: usize = 0;
    while i < v.len()
        invariant
            i <= v@.len(),
            forall|k: int| 0 <= k < i ==> v@[k] != c,
        decreases v@.len() - i,
    {
        if v[i] == c {
            return true;
        }
        i += 1;
    }
    false
}

fn holds_double_slash(v: &Vec<char>) -> (r: bool)
    ensures
        r == has_double_slash(v@),
{
    let mut i: usize = 0;
    while i < v.len()
        invariant
            i <= v@.len(),
            forall|k: int| 0 <= k < i && k < v@.len() - 1 && #[trigger] v@[k] == '/' ==> v@[k + 1]
                != '/',
        decreases v@.len() - i,
    {
        if i + 1 < v.len() && v[i] == '/' && v[i + 1] == '/' {
            return true;
        }
        i += 1;
    }
    false
}

fn dot_name(s: &str) -> (r: bool)
    ensures
        r == is_dot_name(s@),
{
    proof {
        reveal_strlit(".");
        reveal_strlit("..");
        assert("."@ =~= seq!['.']);
        assert(".."@ =~= seq!['.', '.']);
    }
    same_text(s, ".") || same_text(s, "..")
}

fn holds_dot_segment(s: &str) -> (r: bool)
    ensures
        r == has_dot_segment(s@),
{
    let parts = split_text(s, '/');
    let mut i: usize = 0;
    proof {
        assert(texts(parts@).len() == parts@.len());
    }
    while i < parts.len()
        invariant
            i <= parts@.len(),
            texts(parts@) == split_on(s@, '/'),
            forall|k: int| 0 <= k < i ==> !is_dot_name(#[trigger] split_on(s@, '/')[k]),
        decreases parts@.len() - i,
    {
        proof {
            assert(texts(parts@)[i as int] == parts@[i as int]@);
        }
        if dot_name(parts[i].as_str()) {
            return true;
        }
        i += 1;
    }
    false
}

/// The text without the slashes that it begins with.
pub fn strip_leading_slashes(s: &str) -> (r: String)
    ensures
        r@ == strip_slashes(s@),
{
    let v = to_chars(s);
    let mut i: usize = 0;
    proof {
        assert(v@.skip(0) =~= v@);
    }
    while i < v.len() && v[i] == '/'
        invariant
            i <= v@.len(),
            strip_slashes(v@) == strip_slashes(v@.skip(i as int)),
        decreases v@.len() - i,
    {
        proof {
            assert(v@.skip(i as int).drop_first() =~= v@.skip(i + 1));
        }
        i += 1;
    }
    proof {
        assert(v@.skip(i as int) =~= v@.subrange(i as int, v@.len() as int));
    }
    from_chars(&v, i, v.len())
}

/// The path under which a file is indexed, chunked and searched.
pub fn normalized_index_path(path: &str) -> (r: Result<String, IndexError>)
    ensures
        agrees(r, normalized(path@)),
{
    let trimmed = trim_text(path);
    if holds_char(&to_chars(trimmed.as_str()), '\\') {
        return Err(IndexError::InvalidPath(path.to_owned()));
    }
    let stripped = strip_leading_slashes(trimmed.as_str());
    if holds_double_slash(&to_chars(stripped.as_str())) || holds_dot_segment(stripped.as_str()) {
        return Err(IndexError::InvalidPath(path.to_owned()));
    }
    Ok(stripped)
}

/// The index of the last `/`, or -1.
pub open spec fn last_slash(s: Seq<char>) -> int
    decreases s.len(),
{
    if s.len() == 0 {
        -1
    } else if s.last() == '/' {
        s.len() - 1
    } else {
        last_slash(s.drop_last())
    }
}

/// The directory and the name that a path is made of. The empty path and one that ends in a slash
/// have no name.
pub open spec fn parent_and_name(path: Seq<char>) -> Result<(Seq<char>, Seq<char>), ErrorView> {
    let k = last_slash(path);
    if path.len() == 0 || k == path.len() - 1 {
        Err(ErrorView::InvalidPath(path))
    } else if k < 0 {
        Ok((Seq::empty(), path))
    } else {
        Ok((path.take(k), path.skip(k + 1)))
    }
}

pub fn split_parent_name(path: &str) -> (r: Result<(String, String), IndexError>)
    ensures
        match r {
            Ok((parent, name)) => parent_and_name(path@) == Ok::<(Seq<char>, Seq<char>), ErrorView>(
                (parent@, name@),
            ),
            Err(e) => parent_and_name(path@) == Err::<(Seq<char>, Seq<char>), ErrorView>(e@),
        },
{
    let v = to_chars(path);
    let n = v.len();
    let mut k: usize = n;
    proof {
        assert(v@.take(n as int) =~= v@);
    }
    while k > 0 && v[k - 1] != '/'
        invariant
            k <= n,
            n == v@.len(),
            last_slash(v@) == last_slash(v@.take(k as int)),
        decreases k,
    {
        proof {
            assert(v@.take(k as int).drop_last() =~= v@.take(k - 1));
        }
        k -= 1;
    }
    proof {
        if k > 0 {
            assert(v@.take(k as int).last() == '/');
        }
    }
    if k == n {
        return Err(IndexError::InvalidPath(path.to_owned()));
    }
    if k == 0 {
        return Ok((String::new(), path.to_owned()));
    }
    proof {
        assert(v@.take(k - 1) =~= v@.subrange(0, k - 1));
        assert(v@.skip(k as int) =~= v@.subrange(k as int, n as int));
    }
    Ok((from_chars(&v, 0, k - 1), from_chars(&v, k, n)))
}

/// A name that a node can have, once it is trimmed.
pub open spec fn is_valid_name(name: Seq<char>) -> bool {
    trim(name).len() > 0 && !has_char(trim(name), '/') && !is_dot_name(trim(name))
}

/// The path of the child `name` of the directory at `parent`.
pub open spec fn joined(parent: Seq<char>, name: Seq<char>) -> Result<Seq<char>, ErrorView> {
    if !is_valid_name(name) {
        Err(ErrorView::InvalidPath(name))
    } else if parent.len() == 0 {
        Ok(trim(name))
    } else {
        Ok(parent + seq!['/'] + trim(name))
    }
}

pub fn join_path(parent: &str, name: &str) -> (r: Result<String, IndexError>)
    ensures
        agrees(r, joined(parent@, name@)),
{
    let validated = trim_text(name);
    let v = to_chars(validated.as_str());
    if v.len() == 0 || holds_char(&v, '/') || dot_name(validated.as_str()) {
        return Err(IndexError::InvalidPath(name.to_owned()));
    }
    if parent.is_empty() {
        Ok(validated)
    } else {
        proof {
            reveal_strlit("/");
            assert("/"@ =~= seq!['/']);
        }
        Ok(join3(parent, "/", validated.as_str()))
    }
}

/// The offset that a paging cursor stands for: none or an empty one for the start.
pub open spec fn cursor_offset(cursor: Option<Seq<char>>) -> Result<int, ErrorView> {
    match cursor {
        Some(c) if c.len() > 0 => match parse_signed(c, i64::MAX as nat) {
            Some(n) if n >= 0 => Ok(n),
            _ => Err(ErrorView::InvalidCursor),
        },
        _ => Ok(0),
    }
}

pub open spec fn opt_text(s: Option<&str>) -> Option<Seq<char>> {
    match s {
        Some(t) => Some(t@),
        None => None,
    }
}

pub fn parse_cursor(cursor: Option<&str>) -> (r: Result<i64, IndexError>)
    ensures
        match r {
            Ok(n) => n >= 0 && cursor_offset(opt_text(cursor)) == Ok::<int, ErrorView>(n as int),
            Err(e) => cursor_offset(opt_text(cursor)) == Err::<int, ErrorView>(e@),
        },
{
    match cursor {
        Some(value) => {
            if value.is_empty() {
                return Ok(0);
            }
            match parse_i64(value) {
                Some(n) => {
                    assert(parse_signed(value@, i64::MAX as nat) == opt_int_i64(Some(n)));
                    if n >= 0 {
                        Ok(n)
                    } else {
                        Err(IndexError::InvalidCursor)
                    }
                },
                None => Err(IndexError::InvalidCursor),
            }
        },
        None => Ok(0),
    }
}

// ---------------------------------------------------------------------------
// Laws
// ---------------------------------------------------------------------------

proof fn lemma_slashes_stripped(s: Seq<char>) -> (k: int)
    ensures
        0 <= k <= s.len(),
        strip_slashes(s) == s.skip(k),
        forall|i: int| 0 <= i < k ==> #[trigger] s[i] == '/',
        k < s.len() ==> s[k] != '/',
    decreases s.len(),
{
    if s.len() > 0 && s[0] == '/' {
        let t = s.drop_first();
        let k = lemma_slashes_stripped(t);
        assert(t.skip(k) =~= s.skip(k + 1));
        assert forall|i: int| 0 <= i < k + 1 implies #[trigger] s[i] == '/' by {
            if i > 0 {
                assert(t[i - 1] == s[i]);
            }
        }
        k + 1
    } else {
        assert(s.skip(0) =~= s);
        0
    }
}

/// Only the slashes in front of a text are stripped, and all of them.
pub proof fn lemma_strip_slashes(s: Seq<char>)
    ensures
        strip_slashes(s).len() == 0 || strip_slashes(s)[0] != '/',
        strip_slashes(seq!['/'] + s) == strip_slashes(s),
        s.len() > 0 && s[0] != '/' ==> strip_slashes(s) == s,
{
    lemma_slashes_stripped(s);
    let t = seq!['/'] + s;
    assert(t.drop_first() =~= s);
}

/// A path that is accepted has no backslash, no empty part inside it and no part `.` or `..`, and
/// does not begin with a slash; one that has any of these is refused, with the path as it was
/// given.
pub proof fn lemma_accepted_paths(path: Seq<char>)
    ensures
        match normalized(path) {
            Ok(p) => {
                &&& p.len() == 0 || p[0] != '/'
                &&& forall|i: int| 0 <= i < p.len() ==> #[trigger] p[i] != '\\'
                &&& forall|i: int|
                    0 <= i < p.len() - 1 ==> !(#[trigger] p[i] == '/' && p[i + 1] == '/')
                &&& forall|i: int|
                    0 <= i < split_on(p, '/').len() ==> #[trigger] split_on(p, '/')[i] != seq!['.']
                        && split_on(p, '/')[i] != seq!['.', '.']
                &&& p == strip_slashes(trim(path))
            },
            Err(e) => e == ErrorView::InvalidPath(path),
        },
        (exists|i: int| 0 <= i < trim(path).len() && #[trigger] trim(path)[i] == '\\') ==> normalized(
            path,
        ) is Err,
        forall|i: int|
            0 <= i < strip_slashes(trim(path)).len() - 1 && #[trigger] strip_slashes(trim(path))[i]
                == '/' && strip_slashes(trim(path))[i + 1] == '/' ==> normalized(path) is Err,
        forall|i: int|
            0 <= i < split_on(strip_slashes(trim(path)), '/').len() && (#[trigger] split_on(
                strip_slashes(trim(path)),
                '/',
            )[i] == seq!['.'] || split_on(strip_slashes(trim(path)), '/')[i] == seq!['.', '.'])
                ==> normalized(path) is Err,
{
    let t = trim(path);
    let k = lemma_slashes_stripped(t);
    let p = strip_slashes(t);
    if normalized(path) is Ok {
        assert forall|i: int| 0 <= i < p.len() implies #[trigger] p[i] != '\\' by {
            assert(p[i] == t[k + i]);
        }
        assert forall|i: int| 0 <= i < split_on(p, '/').len() implies #[trigger] split_on(p, '/')[i]
            != seq!['.'] && split_on(p, '/')[i] != seq!['.', '.'] by {
            assert(!is_dot_name(split_on(p, '/')[i]));
        }
    }
    assert forall|i: int|
        0 <= i < split_on(p, '/').len() && (#[trigger] split_on(p, '/')[i] == seq!['.'] || split_on(
            p,
            '/',
        )[i] == seq!['.', '.']) implies normalized(path) is Err by {
        assert(is_dot_name(split_on(p, '/')[i]));
    }
}

pub proof fn lemma_last_slash(s: Seq<char>)
    ensures
        -1 <= last_slash(s) < s.len(),
        last_slash(s) >= 0 ==> s[last_slash(s)] == '/',
        forall|i: int| last_slash(s) < i < s.len() ==> #[trigger] s[i] != '/',
    decreases s.len(),
{
    if s.len() > 0 && s.last() != '/' {
        lemma_last_slash(s.drop_last());
        assert forall|i: int| last_slash(s) < i < s.len() implies #[trigger] s[i] != '/' by {
            if i < s.len() - 1 {
                assert(s.drop_last()[i] == s[i]);
            }
        }
    }
}

/// The name of a path is what is behind its last slash, and the directory what is before it: put
/// together again, they are the path.
pub proof fn lemma_parent_and_name_are_path(path: Seq<char>)
    ensures
        match parent_and_name(path) {
            Ok((parent, name)) => {
                &&& name.len() > 0
                &&& forall|i: int| 0 <= i < name.len() ==> #[trigger] name[i] != '/'
                &&& path == name && parent.len() == 0 || path == parent + seq!['/'] + name
            },
            Err(e) => e == ErrorView::InvalidPath(path) && (path.len() == 0 || path.last() == '/'),
        },
        path.len() > 0 && path.last() != '/' ==> parent_and_name(path) is Ok,
{
    lemma_last_slash(path);
    let k = last_slash(path);
    if parent_and_name(path) is Ok {
        let (parent, name) = parent_and_name(path)->Ok_0;
        if k >= 0 {
            assert(path =~= parent + seq!['/'] + name);
            assert forall|i: int| 0 <= i < name.len() implies #[trigger] name[i] != '/' by {
                assert(name[i] == path[k + 1 + i]);
            }
        }
    }
}

/// A child of a directory is at the directory's path, a slash and its name, and at its name alone
/// in the root. A name that is blank, holds a slash, or is `.` or `..` is refused.
pub proof fn lemma_child_paths(parent: Seq<char>, name: Seq<char>)
    ensures
        is_blank(name) ==> joined(parent, name) is Err,
        trim(name) == seq!['.'] || trim(name) == seq!['.', '.'] ==> joined(parent, name) is Err,
        trim(name).contains('/') ==> joined(parent, name) is Err,
        match joined(parent, name) {
            Ok(p) => p == if parent.len() == 0 {
                trim(name)
            } else {
                parent + seq!['/'] + trim(name)
            },
            Err(e) => e == ErrorView::InvalidPath(name),
        },
        !is_blank(name) && !trim(name).contains('/') && trim(name) != seq!['.'] && trim(name)
            != seq!['.', '.'] ==> joined(parent, name) is Ok,
{
    crate::text::lemma_blank_trims_to_nothing(name);
    let t = trim(name);
    if has_char(t, '/') {
        let i = choose|i: int| 0 <= i < t.len() && t[i] == '/';
        assert(t.contains('/'));
    }
}

/// A cursor is the number that it writes out; none, or an empty one, is the beginning. A number
/// below 0 is none.
pub proof fn lemma_cursors(n: nat)
    ensures
        cursor_offset(None) == Ok::<int, ErrorView>(0),
        cursor_offset(Some(Seq::empty())) == Ok::<int, ErrorView>(0),
        n <= i64::MAX ==> cursor_offset(Some(crate::text::decimal(n))) == Ok::<int, ErrorView>(
            n as int,
        ),
        0 < n <= i64::MAX ==> cursor_offset(Some(seq!['-'] + crate::text::decimal(n))) == Err::<
            int,
            ErrorView,
        >(ErrorView::InvalidCursor),
{
    if n <= i64::MAX {
        crate::text::lemma_signed_round_trip(n as int, i64::MAX as nat);
        crate::text::lemma_decimal_shape(n);
        if n > 0 {
            crate::text::lemma_signed_round_trip(-n, i64::MAX as nat);
        }
    }
}

/// A path is its directory and its name again, and joining gives a path of that directory.
pub proof fn lemma_paths_come_apart(
    path: &str,
    split: Result<(String, String), IndexError>,
    cursor: Option<&str>,
    at: Result<i64, IndexError>,
)
    requires
        call_ensures(split_parent_name, (path,), split),
        call_ensures(parse_cursor, (cursor,), at),
    ensures
        split is Ok <==> path@.len() > 0 && path@.last() != '/',
        split is Ok ==> path@ == split->Ok_0.1@ && split->Ok_0.0@.len() == 0 || path@
            == split->Ok_0.0@ + seq!['/'] + split->Ok_0.1@,
        at is Ok ==> at->Ok_0 >= 0,
        cursor is None ==> at == Ok::<i64, IndexError>(0),
{
    lemma_parent_and_name_are_path(path@);
    if split is Err && path@.len() > 0 && path@.last() != '/' {
        assert(parent_and_name(path@) is Ok);
    }
}

} // verus!
