//! The report lines of the providers' self test.

use vstd::prelude::*;
use crate::text::{decimal_seq, int_to_decimal, i32_to_string, usize_to_string};

verus! {

/// `n` spaces.
pub open spec fn spaces_seq(n: nat) -> Seq<char> {
    Seq::new(n, |i: int| ' ')
}

/// `" ".repeat(n)`.
pub fn spaces(n: usize) -> (r: String)
    ensures
        r@ == spaces_seq(n as nat),
{
    let mut r = String::new();
    let mut i: usize = 0;
    while i < n
        invariant
            i <= n,
            r@ =~= spaces_seq(i as nat),
        decreases n - i,
    {
        proof {
            reveal_strlit(" ");
        }
        r.append(" ");
        i = i + 1;
    }
    r
}

/// The widest of the names `names`, in characters.
pub fn name_width(names: &[&str]) -> (r: usize)
    requires
        names@.len() > 0,
    ensures
        exists|i: int| 0 <= i < names@.len() && r == names@[i]@.len(),
        forall|i: int| 0 <= i < names@.len() ==> names@[i]@.len() <= r,
{
    let mut w = names[0].unicode_len();
    let mut i: usize = 1;
    while i < names.len()
        invariant
            1 <= i <= names@.len(),
            exists|k: int| 0 <= k < i && w == names@[k]@.len(),
            forall|k: int| 0 <= k < i ==> names@[k]@.len() <= w,
        decreases names.len() - i,
    {
        let l = names[i].unicode_len();
        if l > w {
            w = l;
        }
        i = i + 1;
    }
    w
}

/// The gap after a provider's name of `name_len` characters: the names line up in a
/// column `width` wide, then one space.
pub fn name_gap(width: usize, name_len: usize) -> (r: String)
    requires
        name_len <= width < usize::MAX,
    ensures
        r@ == spaces_seq((width - name_len + 1) as nat),
{
    spaces(width - name_len + 1)
}

/// The count of search results, padded on the left to two characters.
pub open spec fn count_label_spec(n: nat) -> Seq<char> {
    if decimal_seq(n).len() < 2 {
        seq![' '] + decimal_seq(n)
    } else {
        decimal_seq(n)
    }
}

/// The count of search results, padded on the left to two characters.
pub fn count_label(n: usize) -> (r: String)
    ensures
        r@ == count_label_spec(n as nat),
{
    let s = usize_to_string(n);
    if s.as_str().unicode_len() < 2 {
        let mut r = String::from_str(" ");
        proof {
            reveal_strlit(" ");
        }
        r.append(s.as_str());
        r
    } else {
        s
    }
}

/// The number of episodes found, padded on the left to the width of the number
/// expected.
pub open spec fn found_label_spec(found: int, expected: int) -> Seq<char> {
    spaces_seq((int_to_decimal(expected).len() - int_to_decimal(found).len()) as nat)
        + int_to_decimal(found)
}

/// The number of episodes found, padded on the left to the width of the number
/// expected.
pub fn found_label(found: i32, expected: i32) -> (r: String)
    requires
        int_to_decimal(found as int).len() <= int_to_decimal(expected as int).len(),
    ensures
        r@ == found_label_spec(found as int, expected as int),
{
    let s = i32_to_string(found);
    let e = i32_to_string(expected);
    let mut r = spaces(e.as_str().unicode_len() - s.as_str().unicode_len());
    r.append(s.as_str());
    r
}

/// The plural ending for `found` streams; a space keeps the column for one.
pub fn streams_suffix(found: usize) -> (r: &'static str)
    ensures
        found != 1 ==> r@ == "s"@,
        found == 1 ==> r@ == " "@,
{
    if found != 1 {
        "s"
    } else {
        " "
    }
}

/// The episode test passes when it finds as many episodes as expected.
pub fn episodes_test_passed(found: i32, expected: i32) -> (b: bool)
    ensures
        b == (found == expected),
{
    found == expected
}

/// The stream test passes when it finds a stream.
pub fn streams_test_passed(found: usize) -> (b: bool)
    ensures
        b == (found > 0),
{
    found > 0
}

} // verus!
