//! A JSON document and the walk along a dot-separated path into it.
use std::cmp::Ordering;
use vstd::prelude::*;

use crate::text::{char_vec, compare_text, lemma_text_order_equal};

verus! {

/// A JSON value.  A number is kept as the text it was written with; an
/// object keeps its members in order.
#[derive(Debug)]
pub enum Json {
    Null,
    Bool(bool),
    Number(String),
    String(String),
    Array(Vec<Json>),
    Object(Vec<(String, Json)>),
}

/// The value of the first member named `key`.
pub open spec fn lookup(entries: Seq<(String, Json)>, key: Seq<char>) -> Option<Json>
    decreases entries.len(),
{
    if entries.len() == 0 {
        None
    } else if entries[0].0@ == key {
        Some(entries[0].1)
    } else {
        lookup(entries.drop_first(), key)
    }
}

/// Looking up a key gives the value of the first member with that name, and
/// nothing when no member has it.
pub proof fn lemma_lookup_first(entries: Seq<(String, Json)>, key: Seq<char>)
    ensures
        lookup(entries, key) matches Some(v) ==> exists|i: int|
            0 <= i < entries.len() && #[trigger] entries[i].0@ == key && entries[i].1 == v && forall|
                j: int,
            | 0 <= j < i ==> entries[j].0@ != key,
        lookup(entries, key) is None ==> forall|i: int|
            0 <= i < entries.len() ==> #[trigger] entries[i].0@ != key,
    decreases entries.len(),
{
    if entries.len() > 0 {
        let rest = entries.drop_first();
        lemma_lookup_first(rest, key);
        if entries[0].0@ != key {
            if let Some(v) = lookup(rest, key) {
                let i = choose|i: int|
                    0 <= i < rest.len() && #[trigger] rest[i].0@ == key && rest[i].1 == v && forall|
                        j: int,
                    | 0 <= j < i ==> rest[j].0@ != key;
                assert(entries[i + 1] == rest[i]);
                assert forall|j: int| 0 <= j < i + 1 implies entries[j].0@ != key by {
                    if j > 0 {
                        assert(entries[j] == rest[j - 1]);
                    }
                }
            } else {
                assert forall|i: int| 0 <= i < entries.len() implies #[trigger] entries[i].0@ != key by {
                    if i > 0 {
                        assert(entries[i] == rest[i - 1]);
                    }
                }
            }
        } else {
            assert(entries[0].0@ == key);
        }
    }
}

/// The member `key` of an object; nothing for any other value.
pub open spec fn member(v: Json, key: Seq<char>) -> Option<Json> {
    match v {
        Json::Object(entries) => lookup(entries@, key),
        _ => None,
    }
}

/// The name of a value's kind.
pub open spec fn kind_name(v: Json) -> Seq<char> {
    match v {
        Json::Null => seq!['n', 'u', 'l', 'l'],
        Json::Bool(_) => seq!['b', 'o', 'o', 'l'],
        Json::Number(_) => seq!['n', 'u', 'm', 'b', 'e', 'r'],
        Json::String(_) => seq!['s', 't', 'r', 'i', 'n', 'g'],
        Json::Array(_) => seq!['a', 'r', 'r', 'a', 'y'],
        Json::Object(_) => seq!['o', 'b', 'j', 'e', 'c', 't'],
    }
}

/// Position of the first `.` in `p`, or its length when there is none.
pub open spec fn first_dot(p: Seq<char>) -> nat
    decreases p.len(),
{
    if p.len() == 0 {
        0
    } else if p[0] == '.' {
        0
    } else {
        1 + first_dot(p.drop_first())
    }
}

/// The non-empty pieces of `p` between dots, in order.
pub open spec fn path_segments(p: Seq<char>) -> Seq<Seq<char>>
    decreases p.len(),
{
    let k = first_dot(p);
    let head: Seq<Seq<char>> = if k == 0 {
        seq![]
    } else {
        seq![p.take(k as int)]
    };
    if k >= p.len() {
        head
    } else {
        head + path_segments(p.skip(k + 1int))
    }
}

/// Follows `segs` from `v` member by member: the value reached, or the first
/// segment that names no member.
pub open spec fn descend(v: Json, segs: Seq<Seq<char>>) -> Result<Json, Seq<char>>
    decreases segs.len(),
{
    if segs.len() == 0 {
        Ok(v)
    } else {
        match member(v, segs[0]) {
            None => Err(segs[0]),
            Some(child) => descend(child, segs.drop_first()),
        }
    }
}

proof fn lemma_first_dot_at(p: Seq<char>, k: int)
    requires
        0 <= k < p.len(),
        p[k] == '.',
        forall|j: int| 0 <= j < k ==> p[j] != '.',
    ensures
        first_dot(p) == k,
    decreases k,
{
    if k > 0 {
        lemma_first_dot_at(p.drop_first(), k - 1);
    }
}

proof fn lemma_first_dot_none(p: Seq<char>)
    requires
        forall|j: int| 0 <= j < p.len() ==> p[j] != '.',
    ensures
        first_dot(p) == p.len(),
    decreases p.len(),
{
    if p.len() > 0 {
        lemma_first_dot_none(p.drop_first());
    }
}

proof fn lemma_first_dot_bounds(p: Seq<char>)
    ensures
        first_dot(p) <= p.len(),
        forall|j: int| 0 <= j < first_dot(p) ==> p[j] != '.',
        first_dot(p) < p.len() ==> p[first_dot(p) as int] == '.',
    decreases p.len(),
{
    if p.len() > 0 && p[0] != '.' {
        lemma_first_dot_bounds(p.drop_first());
        assert forall|j: int| 0 <= j < first_dot(p) implies p[j] != '.' by {
            if j > 0 {
                assert(p[j] == p.drop_first()[j - 1]);
            }
        }
    }
}

/// Every segment of a path is a non-empty key without a dot.
pub proof fn lemma_segments_are_keys(p: Seq<char>)
    ensures
        forall|i: int|
            0 <= i < path_segments(p).len() ==> #[trigger] path_segments(p)[i].len() > 0 && !path_segments(
                p,
            )[i].contains('.'),
    decreases p.len(),
{
    let k = first_dot(p);
    lemma_first_dot_bounds(p);
    let head: Seq<Seq<char>> = if k == 0 {
        seq![]
    } else {
        seq![p.take(k as int)]
    };
    if k > 0 {
        assert(!p.take(k as int).contains('.')) by {
            assert forall|j: int| 0 <= j < k implies p.take(k as int)[j] != '.' by {}
        }
    }
    if k < p.len() {
        lemma_segments_are_keys(p.skip(k + 1int));
        let rest = path_segments(p.skip(k + 1int));
        assert(path_segments(p) == head + rest);
        assert forall|i: int| 0 <= i < path_segments(p).len() implies #[trigger] path_segments(p)[i].len()
            > 0 && !path_segments(p)[i].contains('.') by {
            if i >= head.len() {
                assert(path_segments(p)[i] == rest[i - head.len()]);
            }
        }
    }
}

/// A non-empty path without a dot is a single segment: the whole path.
pub proof fn lemma_dot_free_path_is_one_segment(p: Seq<char>)
    requires
        p.len() > 0,
        !p.contains('.'),
    ensures
        path_segments(p) == seq![p],
{
    assert forall|j: int| 0 <= j < p.len() implies p[j] != '.' by {
        if p[j] == '.' {
            assert(p.contains('.'));
        }
    }
    lemma_first_dot_none(p);
    assert(p.take(p.len() as int) =~= p);
}

/// A dot splits a path in two: the segments of `p.q` are those of `p`
/// followed by those of `q`, so runs of dots and dots at either end add no
/// segment.
pub proof fn lemma_segments_split_at_dot(p: Seq<char>, q: Seq<char>)
    ensures
        path_segments(p + seq!['.'] + q) == path_segments(p) + path_segments(q),
    decreases p.len(),
{
    let r = p + seq!['.'] + q;
    let k = first_dot(p);
    lemma_first_dot_bounds(p);
    if k < p.len() {
        lemma_first_dot_at(r, k as int);
        assert(r.take(k as int) =~= p.take(k as int));
        assert(r.skip(k + 1int) =~= p.skip(k + 1int) + seq!['.'] + q);
        lemma_segments_split_at_dot(p.skip(k + 1int), q);
        let head: Seq<Seq<char>> = if k == 0 {
            seq![]
        } else {
            seq![p.take(k as int)]
        };
        assert(path_segments(r) == head + path_segments(r.skip(k + 1int)));
        assert(path_segments(p) == head + path_segments(p.skip(k + 1int)));
        assert(path_segments(r) =~= path_segments(p) + path_segments(q));
    } else {
        lemma_first_dot_at(r, p.len() as int);
        assert(r.take(p.len() as int) =~= p);
        assert(r.skip(p.len() + 1int) =~= q);
        assert(p.take(k as int) =~= p);
        assert(path_segments(r) =~= path_segments(p) + path_segments(q));
    }
}

/// Why a path leads to no list of conditions.
#[derive(Debug)]
pub enum PathError {
    /// The path holds no segment.
    EmptyPath,
    /// `segment` of `path` names no member of the value reached so far.
    MissingKey { segment: String, path: String },
    /// The value at `path` is of kind `kind`, neither array nor object.
    NotArrayOrObject { path: String, kind: String },
}

/// `format!("{:?}", s)` of a text: the text in double quotes, escaped as
/// Rust's `Debug` for `str` does.
pub uninterp spec fn debug_quoted(s: Seq<char>) -> Seq<char>;

/// Calls `format!("{:?}", s)`.  Claimed: the result is the named
/// `debug_quoted` of the text.
#[verifier::external_body]
fn quote_debug(s: &str) -> (r: String)
    ensures
        r@ == debug_quoted(s@),
{
    format!("{:?}", s)
}

/// The text of a path error.
pub open spec fn error_text(e: PathError) -> Seq<char> {
    match e {
        PathError::EmptyPath => "path must contain at least one segment"@,
        PathError::MissingKey { segment, path } => "missing key "@ + debug_quoted(segment@)
            + " in path "@ + debug_quoted(path@),
        PathError::NotArrayOrObject { path, kind } => "value at path "@ + debug_quoted(path@)
            + " is not an array or object (got "@ + kind@ + ")"@,
    }
}

impl PathError {
    /// The error as a sentence, such as `missing key "conditions" in path
    /// "status.conditions"`.
    pub fn message(&self) -> (r: String)
        ensures
            r@ == error_text(*self),
    {
        match self {
            PathError::EmptyPath => String::from_str("path must contain at least one segment"),
            PathError::MissingKey { segment, path } => {
                let mut out = String::from_str("missing key ");
                let q = quote_debug(segment.as_str());
                out.append(q.as_str());
                out.append(" in path ");
                let q = quote_debug(path.as_str());
                out.append(q.as_str());
                out
            },
            PathError::NotArrayOrObject { path, kind } => {
                let mut out = String::from_str("value at path ");
                let q = quote_debug(path.as_str());
                out.append(q.as_str());
                out.append(" is not an array or object (got ");
                out.append(kind.as_str());
                out.append(")");
                out
            },
        }
    }
}

/// The name of a value's kind: `null`, `bool`, `number`, `string`, `array`
/// or `object`.
pub fn json_kind(v: &Json) -> (r: &'static str)
    ensures
        r@ == kind_name(*v),
{
    proof {
        reveal_strlit("null");
        reveal_strlit("bool");
        reveal_strlit("number");
        reveal_strlit("string");
        reveal_strlit("array");
        reveal_strlit("object");
    }
    match v {
        Json::Null => "null",
        Json::Bool(_) => "bool",
        Json::Number(_) => "number",
        Json::String(_) => "string",
        Json::Array(_) => "array",
        Json::Object(_) => "object",
    }
}

/// Whether two strings are the same text.
pub fn same_text(a: &str, b: &str) -> (r: bool)
    ensures
        r == (a@ == b@),
{
    proof {
        lemma_text_order_equal(a@, b@);
    }
    match compare_text(a, b) {
        Ordering::Equal => true,
        _ => false,
    }
}

/// The value of the first member of `entries` named `key`.
pub fn object_get<'a>(entries: &'a [(String, Json)], key: &str) -> (r: Option<&'a Json>)
    ensures
        r matches Some(x) ==> lookup(entries@, key@) == Some(*x),
        r is None ==> lookup(entries@, key@) is None,
{
    let n = entries.len();
    let mut j: usize = 0;
    assert(entries@.skip(0) =~= entries@);
    while j < n
        invariant
            n == entries@.len(),
            j <= n,
            lookup(entries@, key@) == lookup(entries@.skip(j as int), key@),
        decreases n - j,
    {
        assert(entries@.skip(j as int)[0] == entries@[j as int]);
        assert(entries@.skip(j as int).drop_first() =~= entries@.skip(j + 1));
        if same_text(entries[j].0.as_str(), key) {
            return Some(&entries[j].1);
        }
        j = j + 1;
    }
    None
}

/// The member `key` of an object; nothing for any other value.
pub fn member_of<'a>(v: &'a Json, key: &str) -> (r: Option<&'a Json>)
    ensures
        r matches Some(x) ==> member(*v, key@) == Some(*x),
        r is None ==> member(*v, key@) is None,
{
    match v {
        Json::Object(entries) => object_get(entries.as_slice(), key),
        _ => None,
    }
}

/// The non-empty dot-separated segments of `path`.
pub fn split_path(path: &str) -> (r: Vec<String>)
    ensures
        r@.map_values(|s: String| s@) == path_segments(path@),
{
    let cv = char_vec(path);
    let n = cv.len();
    let mut out: Vec<String> = Vec::new();
    let mut start: usize = 0;
    let mut i: usize = 0;
    assert(path@.subrange(0, n as int) =~= path@);
    assert(out@.map_values(|s: String| s@) =~= Seq::<Seq<char>>::empty());
    while i < n
        invariant
            cv@ == path@,
            n == cv@.len(),
            start <= i <= n,
            forall|j: int| start <= j < i ==> cv@[j] != '.',
            path_segments(path@) == out@.map_values(|s: String| s@) + path_segments(
                path@.subrange(start as int, n as int),
            ),
        decreases n - i,
    {
        if cv[i] == '.' {
            let ghost q = path@.subrange(start as int, n as int);
            proof {
                lemma_first_dot_at(q, i - start);
                assert(q.skip(i - start + 1) =~= path@.subrange(i + 1, n as int));
            }
            if i > start {
                let seg = String::from_str(path.substring_char(start, i));
                proof {
                    assert(q.take(i - start) =~= seg@);
                }
                let ghost before = out@.map_values(|s: String| s@);
                out.push(seg);
                assert(out@.map_values(|s: String| s@) =~= before.push(seg@));
                assert(path_segments(q) =~= seq![seg@] + path_segments(path@.subrange(i + 1, n as int)));
            } else {
                assert(path_segments(q) =~= path_segments(path@.subrange(i + 1, n as int)));
            }
            start = i + 1;
        }
        i = i + 1;
    }
    let ghost q = path@.subrange(start as int, n as int);
    proof {
        lemma_first_dot_none(q);
    }
    if n > start {
        let seg = String::from_str(path.substring_char(start, n));
        proof {
            assert(q.take(q.len() as int) =~= seg@);
        }
        let ghost before = out@.map_values(|s: String| s@);
        out.push(seg);
        assert(out@.map_values(|s: String| s@) =~= before.push(seg@));
        assert(path_segments(q) =~= seq![seg@]);
    } else {
        assert(path_segments(q) =~= seq![]);
    }
    assert(path_segments(path@) =~= out@.map_values(|s: String| s@));
    out
}

/// What a walk along `path` from `v` yields: the array items or the single
/// object reached, or why there is none.
pub open spec fn walk_outcome(v: Json, path: Seq<char>, r: Result<Seq<Json>, PathError>) -> bool {
    let segs = path_segments(path);
    if segs.len() == 0 {
        r matches Err(PathError::EmptyPath)
    } else {
        match descend(v, segs) {
            Err(seg) => r matches Err(PathError::MissingKey { segment, path: p }) && segment@
                == seg && p@ == path,
            Ok(leaf) => match leaf {
                Json::Array(items) => r == Ok::<Seq<Json>, PathError>(items@),
                Json::Object(_) => r == Ok::<Seq<Json>, PathError>(seq![leaf]),
                _ => r matches Err(PathError::NotArrayOrObject { path: p, kind }) && p@ == path
                    && kind@ == kind_name(leaf),
            },
        }
    }
}

/// The values that `refs` points to.
pub open spec fn deref_all(refs: Seq<&Json>) -> Seq<Json> {
    refs.map_values(|x: &Json| *x)
}

/// The values at a dot-separated `path` from `v`: the items of an array, or an
/// object alone.  Empty segments of the path are ignored.
pub fn walk_path<'a>(v: &'a Json, path: &str) -> (r: Result<Vec<&'a Json>, PathError>)
    ensures
        walk_outcome(
            *v,
            path@,
            match r {
                Ok(refs) => Ok(deref_all(refs@)),
                Err(e) => Err(e),
            },
        ),
{
    let segs = split_path(path);
    let ghost sv = segs@.map_values(|s: String| s@);
    if segs.len() == 0 {
        return Err(PathError::EmptyPath);
    }
    let n = segs.len();
    let mut cur: &Json = v;
    let mut i: usize = 0;
    assert(sv.skip(0) =~= sv);
    while i < n
        invariant
            sv == segs@.map_values(|s: String| s@),
            sv == path_segments(path@),
            n == segs@.len(),
            n > 0,
            i <= n,
            descend(*v, sv) == descend(*cur, sv.skip(i as int)),
        decreases n - i,
    {
        assert(sv.skip(i as int)[0] == segs@[i as int]@);
        assert(sv.skip(i as int).drop_first() =~= sv.skip(i + 1));
        match member_of(cur, segs[i].as_str()) {
            None => {
                return Err(
                    PathError::MissingKey {
                        segment: segs[i].clone(),
                        path: String::from_str(path),
                    },
                );
            },
            Some(child) => {
                cur = child;
            },
        }
        i = i + 1;
    }
    assert(sv.skip(n as int) =~= seq![]);
    match cur {
        Json::Array(items) => {
            let mut out: Vec<&Json> = Vec::new();
            let m = items.len();
            let mut j: usize = 0;
            while j < m
                invariant
                    m == items@.len(),
                    j <= m,
                    deref_all(out@) =~= items@.take(j as int),
                decreases m - j,
            {
                let ghost before = out@;
                out.push(&items[j]);
                assert(deref_all(out@) =~= deref_all(before).push(items@[j as int]));
                assert(items@.take(j + 1) =~= items@.take(j as int).push(items@[j as int]));
                j = j + 1;
            }
            assert(items@.take(m as int) =~= items@);
            Ok(out)
        },
        Json::Object(_) => {
            let out = vec![cur];
            assert(deref_all(out@) =~= seq![*cur]);
            Ok(out)
        },
        _ => Err(
            PathError::NotArrayOrObject {
                path: String::from_str(path),
                kind: String::from_str(json_kind(cur)),
            },
        ),
    }
}

} // verus!
