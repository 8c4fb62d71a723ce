//! What a Vorbis file's comment header yields: `NAME=value` comments read into
//! a map, and the descriptions of libvorbisfile's error codes.

use vstd::prelude::*;
use crate::comments::{texts, CommentMap};
use crate::text::{after_first, before_first, first_index_of, lemma_first_index_is, split_once_char};

verus! {

/// The name and value that the comment `c` holds: the text before its first
/// `=`, and the text from there up to the next `=` or the end. A comment
/// without `=` holds none.
pub open spec fn comment_field(c: Seq<char>) -> Option<(Seq<char>, Seq<char>)> {
    match after_first(c, '=') {
        Some(rest) => Some((before_first(c, '='), before_first(rest, '='))),
        None => None,
    }
}

/// The map that the comments `cs` make when each one's field is inserted in
/// turn, a later comment replacing an earlier one with the same name.
pub open spec fn comments_map(cs: Seq<Seq<char>>) -> Map<Seq<char>, Seq<char>>
    decreases cs.len(),
{
    if cs.len() == 0 {
        Map::empty()
    } else {
        let m = comments_map(cs.drop_last());
        match comment_field(cs.last()) {
            Some((name, value)) => m.insert(name, value),
            None => m,
        }
    }
}

/// A comment `name=value` holds the name `name` and the value `value`, whole,
/// when neither contains `=`.
pub proof fn lemma_comment_field(name: Seq<char>, value: Seq<char>)
    requires
        !name.contains('='),
        !value.contains('='),
    ensures
        comment_field(name + seq!['='] + value) == Some((name, value)),
{
    lemma_split_at_first(name, value);
    lemma_whole_value(value);
}

/// With a further `=rest` after `name=value`, the value still ends at that
/// `=`.
pub proof fn lemma_comment_field_cut(name: Seq<char>, value: Seq<char>, rest: Seq<char>)
    requires
        !name.contains('='),
        !value.contains('='),
    ensures
        comment_field(name + seq!['='] + (value + seq!['='] + rest)) == Some((name, value)),
{
    lemma_split_at_first(name, value + seq!['='] + rest);
    lemma_split_at_first(value, rest);
}

/// A value without `=` is kept whole.
proof fn lemma_whole_value(v: Seq<char>)
    requires
        !v.contains('='),
    ensures
        before_first(v, '=') == v,
{
    assert(first_index_of(v, '=') is None);
}

/// Cutting `a=b` at its first `=`, where `a` holds none, gives `a` and `b`.
proof fn lemma_split_at_first(a: Seq<char>, b: Seq<char>)
    requires
        !a.contains('='),
    ensures
        before_first(a + seq!['='] + b, '=') == a,
        after_first(a + seq!['='] + b, '=') == Some(b),
{
    let s = a + seq!['='] + b;
    assert forall|j: int| 0 <= j < a.len() implies s[j] != '=' by {
        assert(s[j] == a[j]);
    }
    assert(s[a.len() as int] == '=');
    lemma_first_index_is(s, '=', a.len() as int);
    assert(s.take(a.len() as int) =~= a);
    assert(s.skip(a.len() as int + 1) =~= b);
}

/// A comment without `=` holds no field.
pub proof fn lemma_comment_without_equals(c: Seq<char>)
    requires
        !c.contains('='),
    ensures
        comment_field(c) is None,
{
    assert(first_index_of(c, '=') is None);
}

/// Reading one more comment `name=value` sets `name` to `value` and leaves
/// every other name as it was.
pub proof fn lemma_comments_map_push(cs: Seq<Seq<char>>, name: Seq<char>, value: Seq<char>)
    requires
        !name.contains('='),
        !value.contains('='),
    ensures
        comments_map(cs.push(name + seq!['='] + value)) == comments_map(cs).insert(name, value),
{
    let c = name + seq!['='] + value;
    lemma_comment_field(name, value);
    assert(cs.push(c).drop_last() =~= cs);
}

/// The name and value that the comment `c` holds, if any.
pub fn comment_field_of(c: &str) -> (r: Option<(String, String)>)
    ensures
        match r {
            Some((name, value)) => comment_field(c@) == Some((name@, value@)),
            None => comment_field(c@) is None,
        },
{
    let (name, rest) = split_once_char(c, '=');
    match rest {
        Some(rest) => {
            let (value, _) = split_once_char(rest.as_str(), '=');
            Some((name, value))
        },
        None => None,
    }
}

/// The map of the comments in `list`, in order, as a comment header is read.
pub fn comments_to_map(list: &Vec<String>) -> (r: CommentMap)
    ensures
        r@ == comments_map(texts(list@)),
{
    let ghost cs = texts(list@);
    let mut m = CommentMap::new();
    let n = list.len();
    let mut i: usize = 0;
    while i < n
        invariant
            i <= n,
            n == list@.len(),
            cs == texts(list@),
            m@ == comments_map(cs.take(i as int)),
        decreases n - i,
    {
        proof {
            assert(cs.take(i + 1).drop_last() =~= cs.take(i as int));
            assert(cs.take(i + 1).last() == list@[i as int]@);
        }
        match comment_field_of(list[i].as_str()) {
            Some((name, value)) => m.insert(name, value),
            None => {},
        }
        i += 1;
    }
    assert(cs.take(n as int) =~= cs);
    m
}

/// The description of a libvorbisfile error code, for the codes that have one.
pub open spec fn error_text(code: i32) -> Option<Seq<char>> {
    if code == -128 {
        Some("A read from media returned an error"@)
    } else if code == -132 {
        Some("Bitstream does not contain any Vorbis data"@)
    } else if code == -134 {
        Some("Vorbis version mismatch"@)
    } else if code == -133 {
        Some("Invalid Vorbis bitstream header"@)
    } else if code == -129 {
        Some("Internal logic fault"@)
    } else {
        None
    }
}

/// Describes a libvorbisfile error code (`OV_EREAD`, `OV_ENOTVORBIS`,
/// `OV_EVERSION`, `OV_EBADHEADER`, `OV_EFAULT`); `None` for other codes.
pub fn error_description(code: i32) -> (r: Option<&'static str>)
    ensures
        r.deep_view() == error_text(code),
{
    if code == -128 {
        Some("A read from media returned an error")
    } else if code == -132 {
        Some("Bitstream does not contain any Vorbis data")
    } else if code == -134 {
        Some("Vorbis version mismatch")
    } else if code == -133 {
        Some("Invalid Vorbis bitstream header")
    } else if code == -129 {
        Some("Internal logic fault")
    } else {
        None
    }
}

} // verus!
