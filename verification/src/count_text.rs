//! Reading the player count that the user types into a roster row: the text
//! without surrounding white space, read as a decimal `i32` the way
//! `str::parse::<i32>` does.

use vstd::prelude::*;

verus! {

/// Unicode `White_Space` characters, those that `char::is_whitespace` and
/// `str::trim` treat as white space.
pub open spec fn is_white_space(c: char) -> bool {
    let v = c as u32;
    ||| 0x9 <= v <= 0xd
    ||| v == 0x20
    ||| v == 0x85
    ||| v == 0xa0
    ||| v == 0x1680
    ||| 0x2000 <= v <= 0x200a
    ||| v == 0x2028
    ||| v == 0x2029
    ||| v == 0x202f
    ||| v == 0x205f
    ||| v == 0x3000
}

/// The text without its leading white space.
pub open spec fn trim_start(s: Seq<char>) -> Seq<char>
    decreases s.len(),
{
    if s.len() > 0 && is_white_space(s[0]) {
        trim_start(s.drop_first())
    } else {
        s
    }
}

/// The text without its trailing white space.
pub open spec fn trim_end(s: Seq<char>) -> Seq<char>
    decreases s.len(),
{
    if s.len() > 0 && is_white_space(s.last()) {
        trim_end(s.drop_last())
    } else {
        s
    }
}

/// The text without leading and trailing white space, as `str::trim` gives.
pub open spec fn trimmed(s: Seq<char>) -> Seq<char> {
    trim_end(trim_start(s))
}

/// Whether `s[i..j]` is what is left of `s` without its surrounding white
/// space: everything before `i` and from `j` on is white space, and a
/// non-empty `s[i..j]` neither starts nor ends with white space.
pub open spec fn bare_span(s: Seq<char>, i: int, j: int) -> bool {
    &&& 0 <= i <= j <= s.len()
    &&& forall|k: int| 0 <= k < i ==> is_white_space(#[trigger] s[k])
    &&& forall|k: int| j <= k < s.len() ==> is_white_space(#[trigger] s[k])
    &&& i < j ==> !is_white_space(s[i]) && !is_white_space(s[j - 1])
}

/// Whether `c` is one of the ASCII digits `0` to `9`.
pub open spec fn is_digit(c: char) -> bool {
    '0' <= c <= '9'
}

/// The value of a run of decimal digits.
pub open spec fn digits_value(t: Seq<char>) -> int
    decreases t.len(),
{
    if t.len() == 0 {
        0
    } else {
        digits_value(t.drop_last()) * 10 + (t.last() as int - '0' as int)
    }
}

/// Whether every character of `t` is a digit.
pub open spec fn all_digits(t: Seq<char>) -> bool {
    forall|i: int| 0 <= i < t.len() ==> is_digit(#[trigger] t[i])
}

/// What `str::parse::<i32>` gives: an optional `+` or `-`, then one digit or
/// more and nothing else, whose value fits an `i32`; `None` otherwise.
pub open spec fn parse_i32(t: Seq<char>) -> Option<i32> {
    let signed = t.len() > 0 && (t[0] == '-' || t[0] == '+');
    let body = if signed {
        t.drop_first()
    } else {
        t
    };
    let value = if t.len() > 0 && t[0] == '-' {
        -digits_value(body)
    } else {
        digits_value(body)
    };
    if body.len() == 0 || !all_digits(body) || value < i32::MIN || value > i32::MAX {
        None
    } else {
        Some(value as i32)
    }
}

proof fn lemma_digits_value_grows(t: Seq<char>, m: int)
    requires
        all_digits(t),
        0 <= m <= t.len(),
    ensures
        0 <= digits_value(t.subrange(0, m)) <= digits_value(t),
    decreases t.len(),
{
    if t.len() > 0 {
        let init = t.drop_last();
        assert forall|i: int| 0 <= i < init.len() implies is_digit(#[trigger] init[i]) by {
            assert(init[i] == t[i]);
        }
        assert(is_digit(t[t.len() - 1]));
        if m == t.len() {
            assert(t.subrange(0, m) =~= t);
            lemma_digits_value_grows(init, init.len() as int);
            assert(init.subrange(0, init.len() as int) =~= init);
        } else {
            lemma_digits_value_grows(init, m);
            assert(init.subrange(0, m) =~= t.subrange(0, m));
            lemma_digits_value_grows(init, init.len() as int);
            assert(init.subrange(0, init.len() as int) =~= init);
        }
    } else {
        assert(t.subrange(0, m) =~= t);
    }
}

proof fn lemma_trim_start(s: Seq<char>, i: int)
    requires
        0 <= i <= s.len(),
        forall|k: int| 0 <= k < i ==> is_white_space(#[trigger] s[k]),
        i == s.len() || !is_white_space(s[i]),
    ensures
        trim_start(s) == s.subrange(i, s.len() as int),
    decreases i,
{
    if i > 0 {
        assert(is_white_space(s[0]));
        let rest = s.drop_first();
        assert forall|k: int| 0 <= k < i - 1 implies is_white_space(#[trigger] rest[k]) by {
            assert(rest[k] == s[k + 1]);
        }
        lemma_trim_start(rest, i - 1);
        assert(rest.subrange(i - 1, rest.len() as int) =~= s.subrange(i, s.len() as int));
    } else {
        assert(s.subrange(0, s.len() as int) =~= s);
    }
}

proof fn lemma_trim_end(s: Seq<char>, j: int)
    requires
        0 <= j <= s.len(),
        forall|k: int| j <= k < s.len() ==> is_white_space(#[trigger] s[k]),
        j == 0 || !is_white_space(s[j - 1]),
    ensures
        trim_end(s) == s.subrange(0, j),
    decreases s.len() - j,
{
    if j < s.len() {
        assert(is_white_space(s[s.len() - 1]));
        let init = s.drop_last();
        assert forall|k: int| j <= k < init.len() implies is_white_space(#[trigger] init[k]) by {
            assert(init[k] == s[k]);
        }
        if j > 0 {
            assert(init[j - 1] == s[j - 1]);
        }
        lemma_trim_end(init, j);
        assert(init.subrange(0, j) =~= s.subrange(0, j));
    } else {
        assert(s.subrange(0, j) =~= s);
    }
}

proof fn lemma_trim_start_at(s: Seq<char>) -> (i: int)
    ensures
        0 <= i <= s.len(),
        forall|k: int| 0 <= k < i ==> is_white_space(#[trigger] s[k]),
        i == s.len() || !is_white_space(s[i]),
        trim_start(s) == s.subrange(i, s.len() as int),
    decreases s.len(),
{
    if s.len() > 0 && is_white_space(s[0]) {
        let rest = s.drop_first();
        let i0 = lemma_trim_start_at(rest);
        assert forall|k: int| 0 <= k < i0 + 1 implies is_white_space(#[trigger] s[k]) by {
            if k > 0 {
                assert(s[k] == rest[k - 1]);
            }
        }
        if i0 < rest.len() {
            assert(s[i0 + 1] == rest[i0]);
        }
        assert(rest.subrange(i0, rest.len() as int) =~= s.subrange(i0 + 1, s.len() as int));
        i0 + 1
    } else {
        assert(s.subrange(0, s.len() as int) =~= s);
        0
    }
}

proof fn lemma_trim_end_at(s: Seq<char>) -> (j: int)
    ensures
        0 <= j <= s.len(),
        forall|k: int| j <= k < s.len() ==> is_white_space(#[trigger] s[k]),
        j == 0 || !is_white_space(s[j - 1]),
        trim_end(s) == s.subrange(0, j),
    decreases s.len(),
{
    if s.len() > 0 && is_white_space(s.last()) {
        let init = s.drop_last();
        let j0 = lemma_trim_end_at(init);
        assert forall|k: int| j0 <= k < s.len() implies is_white_space(#[trigger] s[k]) by {
            if k < init.len() {
                assert(s[k] == init[k]);
            }
        }
        if j0 > 0 {
            assert(s[j0 - 1] == init[j0 - 1]);
        }
        assert(init.subrange(0, j0) =~= s.subrange(0, j0));
        j0
    } else {
        assert(s.subrange(0, s.len() as int) =~= s);
        s.len() as int
    }
}

/// The trimmed text is the part of the text between its leading and its
/// trailing white space, wherever these are: for any split of `s` into white
/// space, a run that neither starts nor ends with white space, and white
/// space, the trimmed text is that run.
pub proof fn law_trimmed_is_bare_span(s: Seq<char>, i: int, j: int)
    requires
        bare_span(s, i, j),
    ensures
        trimmed(s) == s.subrange(i, j),
{
    if i < j {
        lemma_trim_start(s, i);
        let front = s.subrange(i, s.len() as int);
        assert forall|k: int| j - i <= k < front.len() implies is_white_space(#[trigger] front[k]) by {
            assert(front[k] == s[k + i]);
        }
        assert(front[j - i - 1] == s[j - 1]);
        lemma_trim_end(front, j - i);
        assert(front.subrange(0, j - i) =~= s.subrange(i, j));
    } else {
        assert forall|k: int| 0 <= k < s.len() implies is_white_space(#[trigger] s[k]) by {
            if k >= j {
            }
        }
        lemma_trim_start(s, s.len() as int);
        let front = s.subrange(s.len() as int, s.len() as int);
        lemma_trim_end(front, 0);
        assert(front.subrange(0, 0) =~= s.subrange(i, j));
    }
}

/// Every text has such a split: the trimmed text has no white space at
/// either end, and only white space was cut from around it.
pub proof fn law_trimmed_has_bare_span(s: Seq<char>)
    ensures
        exists|i: int, j: int| bare_span(s, i, j) && trimmed(s) == s.subrange(i, j),
        trimmed(s).len() > 0 ==> !is_white_space(trimmed(s)[0]) && !is_white_space(
            trimmed(s).last(),
        ),
{
    let i = lemma_trim_start_at(s);
    let front = s.subrange(i, s.len() as int);
    let j0 = lemma_trim_end_at(front);
    let j = i + j0;
    assert forall|k: int| j <= k < s.len() implies is_white_space(#[trigger] s[k]) by {
        assert(front[k - i] == s[k]);
    }
    if i < j {
        assert(front[j0 - 1] == s[j - 1]);
    }
    assert(front.subrange(0, j0) =~= s.subrange(i, j));
    assert(bare_span(s, i, j));
    if i < j {
        assert(trimmed(s)[0] == s[i]);
        assert(trimmed(s).last() == s[j - 1]);
    }
}

/// White space typed before or after a text changes nothing of what is
/// read: `s` followed or preceded by a white-space character trims, and so
/// parses, as `s` does.
pub proof fn law_white_space_around_ignored(s: Seq<char>, w: char)
    requires
        is_white_space(w),
    ensures
        trimmed(s.push(w)) == trimmed(s),
        trimmed(seq![w] + s) == trimmed(s),
        parse_i32(trimmed(s.push(w))) == parse_i32(trimmed(s)),
        parse_i32(trimmed(seq![w] + s)) == parse_i32(trimmed(s)),
{
    law_trimmed_has_bare_span(s);
    let (i, j) = choose|i: int, j: int| bare_span(s, i, j) && trimmed(s) == s.subrange(i, j);
    let after = s.push(w);
    assert forall|k: int| j <= k < after.len() implies is_white_space(#[trigger] after[k]) by {
        if k < s.len() {
            assert(after[k] == s[k]);
        }
    }
    assert forall|k: int| 0 <= k < i implies is_white_space(#[trigger] after[k]) by {
        assert(after[k] == s[k]);
    }
    if i < j {
        assert(after[i] == s[i] && after[j - 1] == s[j - 1]);
    }
    assert(bare_span(after, i, j));
    law_trimmed_is_bare_span(after, i, j);
    assert(after.subrange(i, j) =~= s.subrange(i, j));
    let before = seq![w] + s;
    assert forall|k: int| 0 <= k < i + 1 implies is_white_space(#[trigger] before[k]) by {
        if k > 0 {
            assert(before[k] == s[k - 1]);
        }
    }
    assert forall|k: int| j + 1 <= k < before.len() implies is_white_space(#[trigger] before[k]) by {
        assert(before[k] == s[k - 1]);
    }
    if i < j {
        assert(before[i + 1] == s[i] && before[j] == s[j - 1]);
    }
    assert(bare_span(before, i + 1, j + 1));
    law_trimmed_is_bare_span(before, i + 1, j + 1);
    assert(before.subrange(i + 1, j + 1) =~= s.subrange(i, j));
}

/// Whether `c` is white space.
fn white_space(c: char) -> (r: bool)
    ensures
        r == is_white_space(c),
{
    let v = c as u32;
    (0x9 <= v && v <= 0xd) || v == 0x20 || v == 0x85 || v == 0xa0 || v == 0x1680 || (0x2000 <= v
        && v <= 0x200a) || v == 0x2028 || v == 0x2029 || v == 0x202f || v == 0x205f || v == 0x3000
}

/// Reads the count typed into a roster row: the text without leading and
/// trailing white space, as a decimal `i32` with an optional sign.
pub fn parse_count(text: &str) -> (r: Option<i32>)
    ensures
        r == parse_i32(trimmed(text@)),
        exists|i: int, j: int| bare_span(text@, i, j) && r == parse_i32(text@.subrange(i, j)),
{
    let ghost s = text@;
    let n = text.unicode_len();
    let mut i: usize = 0;
    while i < n && white_space(text.get_char(i))
        invariant
            s == text@,
            n == s.len(),
            i <= n,
            forall|k: int| 0 <= k < i ==> is_white_space(#[trigger] s[k]),
        decreases n - i,
    {
        i = i + 1;
    }
    proof {
        lemma_trim_start(s, i as int);
    }
    let ghost front = s.subrange(i as int, n as int);
    let mut j: usize = n;
    while j > i && white_space(text.get_char(j - 1))
        invariant
            s == text@,
            n == s.len(),
            i <= j <= n,
            forall|k: int| j <= k < n ==> is_white_space(#[trigger] s[k]),
        decreases j,
    {
        j = j - 1;
    }
    proof {
        assert forall|k: int| j - i <= k < front.len() implies is_white_space(#[trigger] front[k]) by {
            assert(front[k] == s[k + i]);
        }
        if j > i {
            assert(front[j - i - 1] == s[j - 1]);
        }
        lemma_trim_end(front, j - i);
        assert(front.subrange(0, j - i) =~= s.subrange(i as int, j as int));
    }
    let ghost t = s.subrange(i as int, j as int);
    assert(trimmed(s) == t);
    assert(bare_span(s, i as int, j as int));
    let mut k: usize = i;
    let mut negative = false;
    if k < j {
        let c = text.get_char(k);
        assert(c == t[0]);
        if c == '-' {
            negative = true;
            k = k + 1;
        } else if c == '+' {
            k = k + 1;
        }
    }
    let ghost start = k;
    let ghost body = s.subrange(start as int, j as int);
    assert(body =~= if t.len() > 0 && (t[0] == '-' || t[0] == '+') {
        t.drop_first()
    } else {
        t
    });
    if k == j {
        return None;
    }
    let mut value: i64 = 0;
    while k < j
        invariant
            s == text@,
            n == s.len(),
            start <= k <= j <= n,
            body == s.subrange(start as int, j as int),
            trimmed(text@) == t,
            t == s.subrange(i as int, j as int),
            bare_span(s, i as int, j as int),
            body == if t.len() > 0 && (t[0] == '-' || t[0] == '+') {
                t.drop_first()
            } else {
                t
            },
            negative == (t.len() > 0 && t[0] == '-'),
            forall|q: int| start <= q < k ==> is_digit(#[trigger] s[q]),
            value == digits_value(s.subrange(start as int, k as int)),
            0 <= value <= 2147483648,
        decreases j - k,
    {
        let c = text.get_char(k);
        if !('0' <= c && c <= '9') {
            assert(!is_digit(body[k - start]));
            return None;
        }
        let ghost prefix = s.subrange(start as int, k as int + 1);
        assert(prefix.drop_last() =~= s.subrange(start as int, k as int));
        let d = (c as u32 - '0' as u32) as i64;
        value = value * 10 + d;
        if value > 2147483648 {
            proof {
                if all_digits(body) {
                    lemma_digits_value_grows(body, k - start + 1);
                    assert(body.subrange(0, k - start + 1) =~= prefix);
                }
            }
            return None;
        }
        k = k + 1;
    }
    assert(body =~= s.subrange(start as int, k as int));
    assert forall|q: int| 0 <= q < body.len() implies is_digit(#[trigger] body[q]) by {
        assert(body[q] == s[q + start]);
    }
    if negative {
        Some((-value) as i32)
    } else if value <= 2147483647 {
        Some(value as i32)
    } else {
        None
    }
}

} // verus!
