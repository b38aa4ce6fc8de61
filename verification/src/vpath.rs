//! Virtual-path arithmetic.
//!
//! Every path handed to a storage backend is virtual: `/`-rooted and
//! independent of the backend's own addressing. The helpers here strip
//! the leading slash, trim trailing slashes, take the last segment and
//! join a base path with a child name, and each is specified exactly
//! over the character sequence of its input.

use vstd::prelude::*;

verus! {

/// `s` without one leading `/`, if it has one.
pub open spec fn spec_strip_leading_slash(s: Seq<char>) -> Seq<char> {
    if s.len() > 0 && s[0] == '/' {
        s.subrange(1, s.len() as int)
    } else {
        s
    }
}

/// `s` without any trailing `/` characters.
pub open spec fn spec_trim_trailing_slashes(s: Seq<char>) -> Seq<char>
    decreases s.len(),
{
    if s.len() > 0 && s[s.len() - 1] == '/' {
        spec_trim_trailing_slashes(s.drop_last())
    } else {
        s
    }
}

/// The suffix of `s` after its last `/` (all of `s` when it has none).
pub open spec fn spec_last_segment(s: Seq<char>) -> Seq<char>
    decreases s.len(),
{
    if s.len() > 0 && s[s.len() - 1] != '/' {
        spec_last_segment(s.drop_last()).push(s[s.len() - 1])
    } else if s.len() > 0 {
        Seq::empty()
    } else {
        Seq::empty()
    }
}

/// A child's virtual path under `base`: `/name` at the root, otherwise
/// `base/name`.
pub open spec fn spec_join_entry_path(base: Seq<char>, name: Seq<char>) -> Seq<char> {
    if base.len() == 0 || base == "/"@ {
        "/"@ + name
    } else {
        base + "/"@ + name
    }
}

/// A filesystem-style join of `base` and `rel`, inserting one `/`
/// between them unless either side makes it redundant.
pub open spec fn spec_path_join(base: Seq<char>, rel: Seq<char>) -> Seq<char> {
    if rel.len() == 0 {
        base
    } else if base.len() == 0 {
        rel
    } else if base[base.len() - 1] == '/' {
        base + rel
    } else {
        base + "/"@ + rel
    }
}

fn str_len(s: &str) -> (n: usize)
    ensures
        n == s@.len(),
{
    s.unicode_len()
}

/// Character-for-character string comparison.
pub fn str_eq(a: &str, b: &str) -> (r: bool)
    ensures
        r == (a@ == b@),
{
    let an = str_len(a);
    let bn = str_len(b);
    if an != bn {
        return false;
    }
    let mut i: usize = 0;
    while i < an
        invariant
            i <= an,
            an == a@.len() && bn == b@.len() && an == bn,
            forall|j: int| 0 <= j < i ==> a@[j] == b@[j],
        decreases an - i,
    {
        if a.get_char(i) != b.get_char(i) {
            return false;
        }
        i = i + 1;
    }
    proof {
        assert(a@ =~= b@);
    }
    true
}

/// Strips one leading `/` from a virtual path, the first step of
/// mapping it under a backend's root.
pub fn strip_leading_slash<'a>(s: &'a str) -> (r: &'a str)
    ensures
        r@ == spec_strip_leading_slash(s@),
{
    let n = str_len(s);
    if n > 0 && s.get_char(0) == '/' {
        s.substring_char(1, n)
    } else {
        s
    }
}

/// Removes every trailing `/`, the normalization used before hrefs and
/// collection paths are compared.
pub fn trim_trailing_slashes<'a>(s: &'a str) -> (r: &'a str)
    ensures
        r@ == spec_trim_trailing_slashes(s@),
{
    let mut end = str_len(s);
    proof {
        assert(s@.subrange(0, end as int) =~= s@);
    }
    while end > 0 && s.get_char(end - 1) == '/'
        invariant
            end <= s@.len(),
            spec_trim_trailing_slashes(s@) == spec_trim_trailing_slashes(s@.subrange(0, end as int)),
        decreases end,
    {
        proof {
            assert(s@.subrange(0, end as int).drop_last() =~= s@.subrange(0, end - 1));
        }
        end = end - 1;
    }
    proof {
        if end > 0 {
            assert(spec_trim_trailing_slashes(s@.subrange(0, end as int)) == s@.subrange(
                0,
                end as int,
            ));
        } else {
            assert(s@.subrange(0, 0) =~= Seq::<char>::empty());
        }
    }
    s.substring_char(0, end)
}

/// Builds the virtual path of a directory entry from its parent's
/// path and its name.
pub fn join_entry_path(base: &str, name: &str) -> (r: String)
    ensures
        r@ == spec_join_entry_path(base@, name@),
{
    if str_len(base) == 0 || str_eq(base, "/") {
        "/".to_owned().concat(name)
    } else {
        base.to_owned().concat("/").concat(name)
    }
}

/// Joins a base path and a relative path with a `/` separator.
pub fn path_join(base: &str, rel: &str) -> (r: String)
    ensures
        r@ == spec_path_join(base@, rel@),
{
    let bn = str_len(base);
    if str_len(rel) == 0 {
        base.to_owned()
    } else if bn == 0 {
        rel.to_owned()
    } else if base.get_char(bn - 1) == '/' {
        base.to_owned().concat(rel)
    } else {
        base.to_owned().concat("/").concat(rel)
    }
}

/// The last `/`-separated segment of `s`: the entry name derived from
/// a normalized href.
pub fn last_segment<'a>(s: &'a str) -> (r: &'a str)
    ensures
        r@ == spec_last_segment(s@),
{
    let n = str_len(s);
    let mut start = n;
    proof {
        assert(s@.subrange(0, start as int) =~= s@);
        assert(spec_last_segment(s@) + s@.subrange(start as int, s@.len() as int)
            =~= spec_last_segment(s@));
    }
    while start > 0 && s.get_char(start - 1) != '/'
        invariant
            start <= s@.len(),
            spec_last_segment(s@) == spec_last_segment(s@.subrange(0, start as int)) + s@.subrange(
                start as int,
                s@.len() as int,
            ),
        decreases start,
    {
        proof {
            assert(s@.subrange(0, start as int).drop_last() =~= s@.subrange(0, start - 1));
            assert(spec_last_segment(s@.subrange(0, start as int)) == spec_last_segment(
                s@.subrange(0, start - 1),
            ).push(s@[start - 1]));
            assert(spec_last_segment(s@.subrange(0, start - 1)).push(s@[start - 1]) + s@.subrange(
                start as int,
                s@.len() as int,
            ) =~= spec_last_segment(s@.subrange(0, start - 1)) + s@.subrange(
                start - 1,
                s@.len() as int,
            ));
        }
        start = start - 1;
    }
    proof {
        if start > 0 {
            assert(spec_last_segment(s@.subrange(0, start as int)) =~= Seq::<char>::empty());
        } else {
            assert(s@.subrange(0, 0) =~= Seq::<char>::empty());
            assert(spec_last_segment(Seq::<char>::empty()) =~= Seq::<char>::empty());
        }
        assert(Seq::<char>::empty() + s@.subrange(start as int, s@.len() as int) =~= s@.subrange(
            start as int,
            s@.len() as int,
        ));
    }
    let r = s.substring_char(start, n);
    proof {
        assert(spec_last_segment(s@) =~= s@.subrange(start as int, s@.len() as int));
    }
    r
}

} // verus!
