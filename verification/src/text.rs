//! White space and trimming over Unicode text, as `str::trim` and
//! `str::trim_end` define them.
use vstd::prelude::*;

verus! {

/// Whether `c` has Unicode's `White_Space` property (the set that
/// `char::is_whitespace` accepts).
pub open spec fn is_space(c: char) -> bool {
    let u = c as u32;
    ||| 0x09 <= u <= 0x0d
    ||| u == 0x20
    ||| u == 0x85
    ||| u == 0xa0
    ||| u == 0x1680
    ||| 0x2000 <= u <= 0x200a
    ||| u == 0x2028
    ||| u == 0x2029
    ||| u == 0x202f
    ||| u == 0x205f
    ||| u == 0x3000
}

/// `s` without its leading white space.
pub open spec fn trim_start_spec(s: Seq<char>) -> Seq<char>
    decreases s.len(),
{
    if s.len() > 0 && is_space(s[0]) {
        trim_start_spec(s.drop_first())
    } else {
        s
    }
}

/// `s` without its trailing white space.
pub open spec fn trim_end_spec(s: Seq<char>) -> Seq<char>
    decreases s.len(),
{
    if s.len() > 0 && is_space(s.last()) {
        trim_end_spec(s.drop_last())
    } else {
        s
    }
}

/// `s` without leading and trailing white space.
pub open spec fn trim_spec(s: Seq<char>) -> Seq<char> {
    trim_end_spec(trim_start_spec(s))
}

/// Whether `c` is white space.
pub fn is_space_char(c: char) -> (b: bool)
    ensures
        b == is_space(c),
{
    let u = c as u32;
    (0x09 <= u && u <= 0x0d) || u == 0x20 || u == 0x85 || u == 0xa0 || u == 0x1680 || (0x2000
        <= u && u <= 0x200a) || u == 0x2028 || u == 0x2029 || u == 0x202f || u == 0x205f || u
        == 0x3000
}

/// `prefix` followed by `detail`, as a new string.
pub fn prefixed(prefix: &str, detail: &str) -> (r: String)
    ensures
        r@ == prefix@ + detail@,
{
    let mut r = String::from_str(prefix);
    r.append(detail);
    r
}

/// Whether two strings hold the same characters.
pub fn str_eq(a: &str, b: &str) -> (r: bool)
    ensures
        r == (a@ == b@),
{
    let x = String::from_str(a);
    let y = String::from_str(b);
    x == y
}

proof fn lemma_trim_start_step(s: Seq<char>, i: int)
    requires
        0 <= i < s.len(),
        is_space(s[i]),
    ensures
        trim_start_spec(s.subrange(i, s.len() as int)) == trim_start_spec(
            s.subrange(i + 1, s.len() as int),
        ),
{
    let t = s.subrange(i, s.len() as int);
    assert(t.drop_first() =~= s.subrange(i + 1, s.len() as int));
}

proof fn lemma_trim_end_step(s: Seq<char>, i: int, j: int)
    requires
        0 <= i < j <= s.len(),
        is_space(s[j - 1]),
    ensures
        trim_end_spec(s.subrange(i, j)) == trim_end_spec(s.subrange(i, j - 1)),
{
    let t = s.subrange(i, j);
    assert(t.drop_last() =~= s.subrange(i, j - 1));
}

/// Returns the character positions `(i, j)` such that `s[i..j]` is `s`
/// trimmed at the start (when `at_start`) and at the end.
fn trim_bounds(s: &str, at_start: bool) -> (r: (usize, usize))
    ensures
        r.0 <= r.1 <= s@.len(),
        s@.subrange(r.0 as int, r.1 as int) == (if at_start {
            trim_spec(s@)
        } else {
            trim_end_spec(s@)
        }),
{
    let n = s.unicode_len();
    let mut i: usize = 0;
    assert(s@.subrange(0, n as int) =~= s@);
    if at_start {
        while i < n && is_space_char(s.get_char(i))
            invariant
                n == s@.len(),
                i <= n,
                trim_start_spec(s@) == trim_start_spec(s@.subrange(i as int, n as int)),
            decreases n - i,
        {
            proof {
                lemma_trim_start_step(s@, i as int);
            }
            i = i + 1;
        }
        proof {
            let t = s@.subrange(i as int, n as int);
            if i < n {
                assert(t[0] == s@[i as int]);
            } else {
                assert(t.len() == 0);
            }
        }
    }
    let mut j: usize = n;
    while j > i && is_space_char(s.get_char(j - 1))
        invariant
            n == s@.len(),
            i <= j <= n,
            trim_end_spec(s@.subrange(i as int, n as int)) == trim_end_spec(
                s@.subrange(i as int, j as int),
            ),
        decreases j - i,
    {
        proof {
            lemma_trim_end_step(s@, i as int, j as int);
        }
        j = j - 1;
    }
    proof {
        let t = s@.subrange(i as int, j as int);
        if j > i {
            assert(t.last() == s@[j - 1]);
        } else {
            assert(t.len() == 0);
        }
    }
    (i, j)
}

/// `s` without leading and trailing white space, as `str::trim` gives it.
pub fn trim(s: &str) -> (r: &str)
    ensures
        r@ == trim_spec(s@),
{
    let (i, j) = trim_bounds(s, true);
    s.substring_char(i, j)
}

/// `s` without trailing white space, as `str::trim_end` gives it.
pub fn trim_end(s: &str) -> (r: &str)
    ensures
        r@ == trim_end_spec(s@),
{
    let (i, j) = trim_bounds(s, false);
    s.substring_char(i, j)
}

/// What is left after trimming the end holds no trailing white space.
pub proof fn lemma_trim_end_last(s: Seq<char>)
    ensures
        trim_end_spec(s).len() > 0 ==> !is_space(trim_end_spec(s).last()),
        trim_end_spec(s).len() <= s.len(),
        trim_end_spec(s) == s.subrange(0, trim_end_spec(s).len() as int),
    decreases s.len(),
{
    if s.len() > 0 && is_space(s.last()) {
        lemma_trim_end_last(s.drop_last());
        assert(s.drop_last().subrange(0, trim_end_spec(s).len() as int) =~= s.subrange(
            0,
            trim_end_spec(s).len() as int,
        ));
    } else {
        assert(s.subrange(0, s.len() as int) =~= s);
    }
}

/// What is left after trimming the start holds no leading white space.
pub proof fn lemma_trim_start_first(s: Seq<char>)
    ensures
        trim_start_spec(s).len() > 0 ==> !is_space(trim_start_spec(s)[0]),
    decreases s.len(),
{
    if s.len() > 0 && is_space(s[0]) {
        lemma_trim_start_first(s.drop_first());
    }
}

/// Trimming a string that ends in anything but white space changes nothing at its end.
pub proof fn lemma_trim_end_noop(s: Seq<char>)
    requires
        s.len() == 0 || !is_space(s.last()),
    ensures
        trim_end_spec(s) == s,
{
}

/// A trimmed string holds white space at neither end.
pub proof fn lemma_trim_ends(s: Seq<char>)
    ensures
        trim_spec(s).len() > 0 ==> !is_space(trim_spec(s)[0]) && !is_space(trim_spec(s).last()),
{
    let t = trim_start_spec(s);
    lemma_trim_start_first(s);
    lemma_trim_end_last(t);
    if trim_spec(s).len() > 0 {
        assert(trim_spec(s)[0] == t[0]);
    }
}

/// Trimming twice gives what trimming once gives.
pub proof fn lemma_trim_idempotent(s: Seq<char>)
    ensures
        trim_spec(trim_spec(s)) == trim_spec(s),
{
    let t = trim_spec(s);
    lemma_trim_ends(s);
    if t.len() > 0 {
        assert(!is_space(t[0]));
        assert(trim_start_spec(t) == t);
    }
    lemma_trim_end_noop(t);
}

/// The code points of Unicode's `White_Space` property, listed one by one:
/// tab, line feed, vertical tab, form feed, carriage return, space, next line,
/// no-break space, Ogham space mark, the eleven spaces from en quad to hair
/// space, line separator, paragraph separator, narrow no-break space, medium
/// mathematical space and ideographic space.
pub open spec fn white_space_code_points() -> Set<u32> {
    set![
        0x0009u32, 0x000au32, 0x000bu32, 0x000cu32, 0x000du32, 0x0020u32, 0x0085u32, 0x00a0u32,
        0x1680u32, 0x2000u32, 0x2001u32, 0x2002u32, 0x2003u32, 0x2004u32, 0x2005u32, 0x2006u32,
        0x2007u32, 0x2008u32, 0x2009u32, 0x200au32, 0x2028u32, 0x2029u32, 0x202fu32, 0x205fu32,
        0x3000u32,
    ]
}

/// A character is white space exactly when its code point is one of the
/// twenty-five of Unicode's `White_Space` property; in particular no character
/// above U+3000 (such as the fullwidth `？` and `！`) is white space.
pub proof fn lemma_space_is_white_space_property(c: char)
    ensures
        is_space(c) <==> white_space_code_points().contains(c as u32),
        (c as u32) > 0x3000 ==> !is_space(c),
{
    let u = c as u32;
    if 0x2000 <= u <= 0x200a {
        assert(u == 0x2000 || u == 0x2001 || u == 0x2002 || u == 0x2003 || u == 0x2004 || u
            == 0x2005 || u == 0x2006 || u == 0x2007 || u == 0x2008 || u == 0x2009 || u == 0x200a);
    }
    if 0x09 <= u <= 0x0d {
        assert(u == 0x09 || u == 0x0a || u == 0x0b || u == 0x0c || u == 0x0d);
    }
}

/// Trimming removes white space and nothing else: the trimmed string is the
/// part of `s` from position `i` to position `j`; every character before `i`
/// and from `j` on is white space; and, unless the result is empty, its first
/// and last characters are not. So a string that is empty or that starts and
/// ends with characters other than white space is left as it is.
pub proof fn lemma_trim_removes_only_white_space(s: Seq<char>) -> (r: (int, int))
    ensures
        0 <= r.0 <= r.1 <= s.len(),
        trim_spec(s) == s.subrange(r.0, r.1),
        forall|k: int| 0 <= k < r.0 ==> white_space_code_points().contains(#[trigger] s[k] as u32),
        forall|k: int|
            r.1 <= k < s.len() ==> white_space_code_points().contains(#[trigger] s[k] as u32),
        r.0 < r.1 ==> !white_space_code_points().contains(s[r.0] as u32)
            && !white_space_code_points().contains(s[r.1 - 1] as u32),
        (s.len() == 0 || (!white_space_code_points().contains(s[0] as u32)
            && !white_space_code_points().contains(s.last() as u32))) ==> trim_spec(s) == s,
{
    let i = lemma_trim_start_shape(s);
    let t = s.subrange(i, s.len() as int);
    let j0 = lemma_trim_end_shape(t);
    let j = i + j0;
    assert(trim_spec(s) =~= s.subrange(i, j));
    assert forall|k: int| 0 <= k < i implies white_space_code_points().contains(
        #[trigger] s[k] as u32,
    ) by {
        lemma_space_is_white_space_property(s[k]);
    }
    assert forall|k: int| j <= k < s.len() implies white_space_code_points().contains(
        #[trigger] s[k] as u32,
    ) by {
        assert(t[k - i] == s[k]);
        lemma_space_is_white_space_property(s[k]);
    }
    if i < j {
        lemma_space_is_white_space_property(s[i]);
        lemma_space_is_white_space_property(s[j - 1]);
        assert(t[0] == s[i]);
        assert(t[j0 - 1] == s[j - 1]);
    }
    if s.len() > 0 {
        lemma_space_is_white_space_property(s[0]);
        lemma_space_is_white_space_property(s.last());
        if !white_space_code_points().contains(s[0] as u32) && !white_space_code_points().contains(
            s.last() as u32,
        ) {
            assert(i == 0);
            assert(t =~= s);
            assert(j == s.len());
            assert(s.subrange(0, s.len() as int) =~= s);
        }
    } else {
        assert(s.subrange(i, j) =~= s);
    }
    (i, j)
}

/// Trimming the start removes the leading white space and stops at the first
/// other character.
proof fn lemma_trim_start_shape(s: Seq<char>) -> (i: int)
    ensures
        0 <= i <= s.len(),
        trim_start_spec(s) == s.subrange(i, s.len() as int),
        forall|k: int| 0 <= k < i ==> is_space(#[trigger] s[k]),
        i < s.len() ==> !is_space(s[i]),
    decreases s.len(),
{
    if s.len() > 0 && is_space(s[0]) {
        let r = s.drop_first();
        let i0 = lemma_trim_start_shape(r);
        assert(r.subrange(i0, r.len() as int) =~= s.subrange(i0 + 1, s.len() as int));
        assert forall|k: int| 0 <= k < i0 + 1 implies is_space(#[trigger] s[k]) by {
            if k > 0 {
                assert(s[k] == r[k - 1]);
            }
        }
        if i0 + 1 < s.len() {
            assert(s[i0 + 1] == r[i0]);
        }
        i0 + 1
    } else {
        assert(s.subrange(0, s.len() as int) =~= s);
        0
    }
}

/// Trimming the end removes the trailing white space and stops at the last
/// other character.
proof fn lemma_trim_end_shape(s: Seq<char>) -> (j: int)
    ensures
        0 <= j <= s.len(),
        trim_end_spec(s) == s.subrange(0, j),
        forall|k: int| j <= k < s.len() ==> is_space(#[trigger] s[k]),
        j > 0 ==> !is_space(s[j - 1]),
    decreases s.len(),
{
    if s.len() > 0 && is_space(s.last()) {
        let r = s.drop_last();
        let j0 = lemma_trim_end_shape(r);
        assert(r.subrange(0, j0) =~= s.subrange(0, j0));
        assert forall|k: int| j0 <= k < s.len() implies is_space(#[trigger] s[k]) by {
            if k < s.len() - 1 {
                assert(s[k] == r[k]);
            }
        }
        if j0 > 0 {
            assert(s[j0 - 1] == r[j0 - 1]);
        }
        j0
    } else {
        assert(s.subrange(0, s.len() as int) =~= s);
        s.len() as int
    }
}

} // verus!
