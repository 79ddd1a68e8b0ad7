//! Text primitives the manifest parser and the report renderer are built on:
//! substring search, prefix and suffix tests, splitting, and deleting
//! characters or substrings, each proved against a direct spec function
//! over `Seq<char>`.

use vstd::prelude::*;

verus! {

/// `pat` occurs in `s` at position `i`.
pub open spec fn match_at(s: Seq<char>, pat: Seq<char>, i: int) -> bool {
    0 <= i && i + pat.len() <= s.len() && s.subrange(i, i + pat.len() as int) == pat
}

/// `pat` occurs somewhere in `s`.
pub open spec fn contains_seq(s: Seq<char>, pat: Seq<char>) -> bool {
    exists|i: int| match_at(s, pat, i)
}

/// `pat` is a prefix of `s`.
pub open spec fn starts_with_seq(s: Seq<char>, pat: Seq<char>) -> bool {
    pat.len() <= s.len() && s.subrange(0, pat.len() as int) == pat
}

/// `pat` is a suffix of `s`.
pub open spec fn ends_with_seq(s: Seq<char>, pat: Seq<char>) -> bool {
    pat.len() <= s.len() && s.subrange(s.len() - pat.len(), s.len() as int) == pat
}

/// Decides whether `pat` occurs in `s` at position `i`.
#[verifier::loop_isolation(false)]
fn match_at_exec(s: &str, pat: &str, i: usize) -> (r: bool)
    requires
        i + pat@.len() <= s@.len(),
        i + pat@.len() <= usize::MAX,
    ensures
        r == match_at(s@, pat@, i as int),
{
    let pat_len = pat.unicode_len();
    let mut j: usize = 0;
    while j < pat_len
        invariant
            0 <= j <= pat_len,
            pat_len == pat@.len(),
            i + pat_len <= s@.len(),
            forall|k: int| 0 <= k < j ==> s@[i + k] == pat@[k],
        decreases pat_len - j,
    {
        if s.get_char(i + j) != pat.get_char(j) {
            assert(s@.subrange(i as int, i + pat@.len() as int)[j as int] != pat@[j as int]);
            return false;
        }
        j += 1;
    }
    assert(s@.subrange(i as int, i + pat@.len() as int) =~= pat@);
    true
}

/// Decides whether `pat` occurs anywhere in `s`.
#[verifier::loop_isolation(false)]
pub fn contains_str(s: &str, pat: &str) -> (r: bool)
    ensures
        r == contains_seq(s@, pat@),
{
    let s_len = s.unicode_len();
    let pat_len = pat.unicode_len();
    if pat_len > s_len {
        assert(forall|i: int| !match_at(s@, pat@, i));
        return false;
    }
    if pat_len == 0 {
        assert(s@.subrange(0, 0) =~= pat@);
        assert(match_at(s@, pat@, 0));
        return true;
    }
    let mut i: usize = 0;
    while i <= s_len - pat_len
        invariant
            0 <= i <= s_len - pat_len + 1,
            pat_len <= s_len,
            s_len == s@.len(),
            pat_len == pat@.len(),
            forall|k: int| 0 <= k < i ==> !match_at(s@, pat@, k),
        decreases s_len - i,
    {
        if match_at_exec(s, pat, i) {
            return true;
        }
        i += 1;
    }
    assert(forall|k: int| !match_at(s@, pat@, k));
    false
}

/// Decides whether `pat` is a prefix of `s`.
pub fn starts_with_str(s: &str, pat: &str) -> (r: bool)
    ensures
        r == starts_with_seq(s@, pat@),
{
    let s_len = s.unicode_len();
    let pat_len = pat.unicode_len();
    if pat_len > s_len {
        return false;
    }
    match_at_exec(s, pat, 0)
}

/// Decides whether `pat` is a suffix of `s`.
pub fn ends_with_str(s: &str, pat: &str) -> (r: bool)
    ensures
        r == ends_with_seq(s@, pat@),
{
    let s_len = s.unicode_len();
    let pat_len = pat.unicode_len();
    if pat_len > s_len {
        return false;
    }
    match_at_exec(s, pat, s_len - pat_len)
}

/// Relies on String::push: appends the one character to the end.
#[verifier::external_body]
pub(crate) fn push_char(s: &mut String, c: char)
    ensures
        final(s)@ == old(s)@.push(c),
{
    s.push(c);
}

/// The pieces of `s` between occurrences of the delimiter `d`, in order.
/// Adjacent delimiters and delimiters at either end give empty pieces; a
/// string without the delimiter is one piece, so the result never is empty.
pub open spec fn split_on(s: Seq<char>, d: char) -> Seq<Seq<char>>
    decreases s.len(),
{
    if s.len() == 0 {
        seq![Seq::<char>::empty()]
    } else if s[0] == d {
        seq![Seq::<char>::empty()] + split_on(s.drop_first(), d)
    } else {
        let rest = split_on(s.drop_first(), d);
        seq![seq![s[0]] + rest[0]] + rest.drop_first()
    }
}

pub proof fn lemma_split_on_len(s: Seq<char>, d: char)
    ensures
        split_on(s, d).len() >= 1,
    decreases s.len(),
{
    if s.len() > 0 {
        lemma_split_on_len(s.drop_first(), d);
    }
}

/// `groups` with `p` prepended to its first element.
spec fn prepend_first(p: Seq<char>, groups: Seq<Seq<char>>) -> Seq<Seq<char>> {
    seq![p + groups[0]] + groups.drop_first()
}

/// Splits `s` at every occurrence of `d`, as `split_on` describes.
#[verifier::loop_isolation(false)]
pub fn split_str(s: &str, d: char) -> (r: Vec<String>)
    ensures
        r.deep_view() == split_on(s@, d),
{
    let len = s.unicode_len();
    let mut out: Vec<String> = Vec::new();
    let mut start: usize = 0;
    let mut i: usize = 0;
    proof {
        lemma_split_on_len(s@.skip(0), d);
        assert(s@.skip(0) =~= s@);
        assert(s@.subrange(0, 0) =~= Seq::<char>::empty());
    }
    while i < len
        invariant
            0 <= start <= i <= len,
            split_on(s@, d) == out.deep_view() + prepend_first(
                s@.subrange(start as int, i as int),
                split_on(s@.skip(i as int), d),
            ),
            split_on(s@.skip(i as int), d).len() >= 1,
        decreases len - i,
    {
        let ghost rem = s@.skip(i as int);
        let ghost cur = s@.subrange(start as int, i as int);
        proof {
            assert(rem.len() > 0);
            assert(rem[0] == s@[i as int]);
            assert(rem.drop_first() =~= s@.skip(i + 1));
            lemma_split_on_len(s@.skip(i + 1), d);
        }
        let c = s.get_char(i);
        if c == d {
            let piece = s.substring_char(start, i).to_owned();
            proof {
                let next = split_on(s@.skip(i + 1), d);
                assert(split_on(rem, d) == seq![Seq::<char>::empty()] + next);
                assert(cur + Seq::<char>::empty() =~= cur);
                assert(prepend_first(cur, split_on(rem, d)) =~= seq![cur] + next);
                assert(seq![next[0]] + next.drop_first() =~= next);
                assert(prepend_first(s@.subrange(i + 1, i + 1), next) =~= next);
            }
            let ghost prev = out.deep_view();
            out.push(piece);
            proof {
                assert(out.deep_view() =~= prev.push(piece@));
            }
            start = i + 1;
        } else {
            proof {
                let next = split_on(s@.skip(i + 1), d);
                assert(split_on(rem, d) == seq![seq![rem[0]] + next[0]] + next.drop_first());
                assert(cur + (seq![rem[0]] + next[0]) =~= (cur.push(s@[i as int])) + next[0]);
                assert(cur.push(s@[i as int]) =~= s@.subrange(start as int, i + 1));
                assert(prepend_first(cur, split_on(rem, d)) =~= prepend_first(
                    s@.subrange(start as int, i + 1),
                    next,
                ));
            }
        }
        i += 1;
    }
    let piece = s.substring_char(start, len).to_owned();
    proof {
        assert(s@.skip(len as int) =~= Seq::<char>::empty());
        let tail = split_on(s@.skip(len as int), d);
        assert(tail == seq![Seq::<char>::empty()]);
        assert(tail.drop_first() =~= Seq::<Seq<char>>::empty());
        assert(s@.subrange(start as int, len as int) + Seq::<char>::empty() =~= piece@);
        assert(prepend_first(s@.subrange(start as int, len as int), tail) =~= seq![piece@]);
    }
    let ghost prev = out.deep_view();
    out.push(piece);
    proof {
        assert(out.deep_view() =~= prev.push(piece@));
    }
    out
}

/// Like `split_on`, but yields at most `n` pieces: the last piece holds the
/// unsplit remainder of the string.
pub open spec fn splitn_on(s: Seq<char>, d: char, n: nat) -> Seq<Seq<char>>
    decreases s.len(),
{
    if n <= 1 {
        seq![s]
    } else if s.len() == 0 {
        seq![Seq::<char>::empty()]
    } else if s[0] == d {
        seq![Seq::<char>::empty()] + splitn_on(s.drop_first(), d, (n - 1) as nat)
    } else {
        let rest = splitn_on(s.drop_first(), d, n);
        seq![seq![s[0]] + rest[0]] + rest.drop_first()
    }
}

pub proof fn lemma_splitn_on_len(s: Seq<char>, d: char, n: nat)
    ensures
        1 <= splitn_on(s, d, n).len() <= if n <= 1 {
            1nat
        } else {
            n
        },
    decreases s.len(),
{
    if n > 1 && s.len() > 0 {
        if s[0] == d {
            lemma_splitn_on_len(s.drop_first(), d, (n - 1) as nat);
        } else {
            lemma_splitn_on_len(s.drop_first(), d, n);
        }
    }
}

/// Splits `s` at occurrences of `d` into at most `n` pieces, as `splitn_on`
/// describes.
#[verifier::loop_isolation(false)]
pub fn splitn_str(s: &str, d: char, n: usize) -> (r: Vec<String>)
    requires
        n >= 1,
    ensures
        r.deep_view() == splitn_on(s@, d, n as nat),
{
    let len = s.unicode_len();
    let mut out: Vec<String> = Vec::new();
    let mut start: usize = 0;
    let mut i: usize = 0;
    proof {
        lemma_splitn_on_len(s@.skip(0), d, n as nat);
        assert(s@.skip(0) =~= s@);
        assert(s@.subrange(0, 0) =~= Seq::<char>::empty());
    }
    while i < len && out.len() < n - 1
        invariant
            0 <= start <= i <= len,
            out.len() < n,
            splitn_on(s@, d, n as nat) == out.deep_view() + prepend_first(
                s@.subrange(start as int, i as int),
                splitn_on(s@.skip(i as int), d, (n - out.len()) as nat),
            ),
            splitn_on(s@.skip(i as int), d, (n - out.len()) as nat).len() >= 1,
        decreases len - i,
    {
        let ghost m = (n - out.len()) as nat;
        let ghost rem = s@.skip(i as int);
        let ghost cur = s@.subrange(start as int, i as int);
        proof {
            assert(m >= 2);
            assert(rem.len() > 0);
            assert(rem[0] == s@[i as int]);
            assert(rem.drop_first() =~= s@.skip(i + 1));
        }
        let c = s.get_char(i);
        if c == d {
            proof {
                lemma_splitn_on_len(s@.skip(i + 1), d, (m - 1) as nat);
            }
            let piece = s.substring_char(start, i).to_owned();
            proof {
                let next = splitn_on(s@.skip(i + 1), d, (m - 1) as nat);
                assert(splitn_on(rem, d, m) == seq![Seq::<char>::empty()] + next);
                assert(cur + Seq::<char>::empty() =~= cur);
                assert(prepend_first(cur, splitn_on(rem, d, m)) =~= seq![cur] + next);
                assert(seq![next[0]] + next.drop_first() =~= next);
                assert(prepend_first(s@.subrange(i + 1, i + 1), next) =~= next);
            }
            let ghost prev = out.deep_view();
            out.push(piece);
            proof {
                assert(out.deep_view() =~= prev.push(piece@));
            }
            start = i + 1;
        } else {
            proof {
                lemma_splitn_on_len(s@.skip(i + 1), d, m);
                let next = splitn_on(s@.skip(i + 1), d, m);
                assert(splitn_on(rem, d, m) == seq![seq![rem[0]] + next[0]] + next.drop_first());
                assert(cur + (seq![rem[0]] + next[0]) =~= (cur.push(s@[i as int])) + next[0]);
                assert(cur.push(s@[i as int]) =~= s@.subrange(start as int, i + 1));
                assert(prepend_first(cur, splitn_on(rem, d, m)) =~= prepend_first(
                    s@.subrange(start as int, i + 1),
                    next,
                ));
            }
        }
        i += 1;
    }
    let piece = s.substring_char(start, len).to_owned();
    proof {
        let m = (n - out.len()) as nat;
        let rem = s@.skip(i as int);
        let tail = splitn_on(rem, d, m);
        if i == len {
            assert(rem =~= Seq::<char>::empty());
            assert(tail == seq![Seq::<char>::empty()]);
            assert(s@.subrange(start as int, i as int) + Seq::<char>::empty() =~= piece@);
        } else {
            assert(out.len() == n - 1);
            assert(m == 1);
            assert(tail == seq![rem]);
            assert(s@.subrange(start as int, i as int) + rem =~= s@.subrange(
                start as int,
                len as int,
            ));
        }
        assert(tail.drop_first() =~= Seq::<Seq<char>>::empty());
        assert(prepend_first(s@.subrange(start as int, i as int), tail) =~= seq![piece@]);
    }
    let ghost prev = out.deep_view();
    out.push(piece);
    proof {
        assert(out.deep_view() =~= prev.push(piece@));
    }
    out
}

/// The remainder of `s` after its prefix `pat`.
pub fn strip_prefix_str(s: &str, pat: &str) -> (r: String)
    requires
        starts_with_seq(s@, pat@),
    ensures
        r@ == s@.skip(pat@.len() as int),
{
    let n = s.unicode_len();
    let m = pat.unicode_len();
    let r = s.substring_char(m, n).to_owned();
    proof {
        assert(s@.subrange(m as int, n as int) =~= s@.skip(pat@.len() as int));
    }
    r
}

/// `s` with one trailing `suffix` removed; `s` unchanged where `suffix` is
/// no suffix of it.
pub open spec fn without_suffix(s: Seq<char>, suffix: Seq<char>) -> Seq<char> {
    if ends_with_seq(s, suffix) {
        s.take(s.len() - suffix.len())
    } else {
        s
    }
}

/// Removes one trailing `suffix`, as `without_suffix` describes.
pub fn without_suffix_str(s: &str, suffix: &str) -> (r: String)
    ensures
        r@ == without_suffix(s@, suffix@),
{
    let n = s.unicode_len();
    let m = suffix.unicode_len();
    if ends_with_str(s, suffix) {
        let r = s.substring_char(0, n - m).to_owned();
        proof {
            assert(s@.subrange(0, (n - m) as int) =~= s@.take(s@.len() - suffix@.len()));
        }
        r
    } else {
        s.to_owned()
    }
}

/// `s` with every occurrence of the characters `a` and `b` deleted.
pub open spec fn without_chars(s: Seq<char>, a: char, b: char) -> Seq<char>
    decreases s.len(),
{
    if s.len() == 0 {
        s
    } else if s[0] == a || s[0] == b {
        without_chars(s.drop_first(), a, b)
    } else {
        seq![s[0]] + without_chars(s.drop_first(), a, b)
    }
}

/// Deletes every occurrence of the characters `a` and `b` from `s`.
#[verifier::loop_isolation(false)]
pub fn without_chars_str(s: &str, a: char, b: char) -> (r: String)
    ensures
        r@ == without_chars(s@, a, b),
{
    let len = s.unicode_len();
    let mut out = String::new();
    let mut i: usize = 0;
    proof {
        assert(s@.skip(0) =~= s@);
    }
    while i < len
        invariant
            0 <= i <= len,
            without_chars(s@, a, b) == out@ + without_chars(s@.skip(i as int), a, b),
        decreases len - i,
    {
        let ghost rem = s@.skip(i as int);
        proof {
            assert(rem.len() > 0);
            assert(rem[0] == s@[i as int]);
            assert(rem.drop_first() =~= s@.skip(i + 1));
        }
        let c = s.get_char(i);
        if c != a && c != b {
            let ghost prev = out@;
            push_char(&mut out, c);
            proof {
                assert(prev + (seq![rem[0]] + without_chars(rem.drop_first(), a, b)) =~= out@
                    + without_chars(s@.skip(i + 1), a, b));
            }
        }
        i += 1;
    }
    proof {
        assert(s@.skip(len as int) =~= Seq::<char>::empty());
        assert(out@ + Seq::<char>::empty() =~= out@);
    }
    out
}

/// Index of the first piece of `ts` that begins with `pat`, or -1 if none
/// does.
pub open spec fn first_prefix_index(ts: Seq<Seq<char>>, pat: Seq<char>) -> int
    decreases ts.len(),
{
    if ts.len() == 0 {
        -1
    } else if starts_with_seq(ts[0], pat) {
        0
    } else {
        let rest = first_prefix_index(ts.drop_first(), pat);
        if rest == -1 {
            -1
        } else {
            rest + 1
        }
    }
}

proof fn lemma_first_prefix_index_found(ts: Seq<Seq<char>>, pat: Seq<char>, i: int)
    requires
        0 <= i < ts.len(),
        starts_with_seq(ts[i], pat),
        forall|j: int| 0 <= j < i ==> !starts_with_seq(ts[j], pat),
    ensures
        first_prefix_index(ts, pat) == i,
    decreases ts.len(),
{
    if i > 0 {
        lemma_first_prefix_index_found(ts.drop_first(), pat, i - 1);
    }
}

proof fn lemma_first_prefix_index_none(ts: Seq<Seq<char>>, pat: Seq<char>)
    requires
        forall|j: int| 0 <= j < ts.len() ==> !starts_with_seq(ts[j], pat),
    ensures
        first_prefix_index(ts, pat) == -1,
    decreases ts.len(),
{
    if ts.len() > 0 {
        lemma_first_prefix_index_none(ts.drop_first(), pat);
    }
}

/// Finds the first piece of `ts` that begins with `pat`, as
/// `first_prefix_index` describes.
#[verifier::loop_isolation(false)]
pub fn find_with_prefix(ts: &Vec<String>, pat: &str) -> (r: Option<usize>)
    ensures
        match r {
            Option::Some(k) => k < ts@.len() && starts_with_seq(ts.deep_view()[k as int], pat@)
                && first_prefix_index(ts.deep_view(), pat@) == k,
            Option::None => first_prefix_index(ts.deep_view(), pat@) == -1,
        },
{
    let n = ts.len();
    let mut i: usize = 0;
    while i < n
        invariant
            0 <= i <= n,
            forall|j: int| 0 <= j < i ==> !starts_with_seq(ts.deep_view()[j], #[trigger] pat@),
        decreases n - i,
    {
        if starts_with_str(ts[i].as_str(), pat) {
            proof {
                lemma_first_prefix_index_found(ts.deep_view(), pat@, i as int);
            }
            return Option::Some(i);
        }
        i += 1;
    }
    proof {
        lemma_first_prefix_index_none(ts.deep_view(), pat@);
    }
    Option::None
}

/// `c` is an ASCII decimal digit.
pub open spec fn is_digit(c: char) -> bool {
    '0' <= c && c <= '9'
}

pub open spec fn digit_val(c: char) -> nat {
    (c as int - '0' as int) as nat
}

/// Value of a sequence of decimal digits, most significant first.
pub open spec fn digits_value(s: Seq<char>) -> nat
    decreases s.len(),
{
    if s.len() == 0 {
        0
    } else {
        digits_value(s.drop_last()) * 10 + digit_val(s.last())
    }
}

/// The digits of a numeral: an optional leading plus sign is skipped.
pub open spec fn numeral_body(s: Seq<char>) -> Seq<char> {
    if s.len() > 0 && s[0] == '+' {
        s.drop_first()
    } else {
        s
    }
}

/// `s` is a numeral a `u32` holds: an optional plus sign, then at least one
/// digit, with a value of at most `u32::MAX`.
pub open spec fn is_u32_numeral(s: Seq<char>) -> bool {
    let b = numeral_body(s);
    b.len() > 0 && (forall|i: int| 0 <= i < b.len() ==> is_digit(#[trigger] b[i]))
        && digits_value(b) <= u32::MAX
}

/// Value of the numeral `s`, or 0 where `s` is no `u32` numeral. The zero
/// fallback is deliberate: a malformed version segment counts as 0.
pub open spec fn parse_u32_or_zero(s: Seq<char>) -> u32 {
    if is_u32_numeral(s) {
        digits_value(numeral_body(s)) as u32
    } else {
        0
    }
}

/// Parses `s` as a `u32`, as `parse_u32_or_zero` describes: a string that is
/// not a numeral in range, the sign alone or the empty string included,
/// yields 0.
#[verifier::loop_isolation(false)]
pub fn parse_u32_or_default(s: &str) -> (r: u32)
    ensures
        r == parse_u32_or_zero(s@),
{
    let len = s.unicode_len();
    let mut i: usize = 0;
    if len > 0 && s.get_char(0) == '+' {
        i = 1;
    }
    let ghost body = numeral_body(s@);
    proof {
        assert(body =~= s@.subrange(i as int, len as int));
    }
    if i == len {
        return 0;
    }
    let start = i;
    let mut acc: u64 = 0;
    let mut over = false;
    while i < len
        invariant
            start <= i <= len,
            body == s@.subrange(start as int, len as int),
            forall|k: int| start <= k < i ==> is_digit(#[trigger] s@[k]),
            over == (digits_value(s@.subrange(start as int, i as int)) > u32::MAX),
            !over ==> acc == digits_value(s@.subrange(start as int, i as int)),
            acc <= u32::MAX,
        decreases len - i,
    {
        let c = s.get_char(i);
        let cu = c as u32;
        if cu < 48 || cu > 57 {
            proof {
                assert(!is_digit(body[i - start]));
            }
            return 0;
        }
        let d = cu - 48;
        let ghost pre = s@.subrange(start as int, i as int);
        let ghost ext = s@.subrange(start as int, i + 1);
        proof {
            assert(ext.drop_last() =~= pre);
            assert(ext.last() == s@[i as int]);
            assert(digits_value(ext) == digits_value(pre) * 10 + digit_val(s@[i as int]));
            assert(digit_val(s@[i as int]) == d);
        }
        if !over {
            let wide: u64 = acc * 10 + d as u64;
            if wide > u32::MAX as u64 {
                over = true;
            } else {
                acc = wide;
            }
        } else {
            proof {
                assert(digits_value(pre) * 10 + digit_val(s@[i as int]) > u32::MAX);
            }
        }
        i += 1;
    }
    proof {
        assert(s@.subrange(start as int, len as int) =~= body);
        assert(body.len() > 0);
    }
    if over {
        0
    } else {
        acc as u32
    }
}

/// The decimal digit character for `d`.
pub open spec fn dec_digit_char(d: nat) -> char {
    if d == 0 {
        '0'
    } else if d == 1 {
        '1'
    } else if d == 2 {
        '2'
    } else if d == 3 {
        '3'
    } else if d == 4 {
        '4'
    } else if d == 5 {
        '5'
    } else if d == 6 {
        '6'
    } else if d == 7 {
        '7'
    } else if d == 8 {
        '8'
    } else {
        '9'
    }
}

/// The decimal numeral of `n`, without sign or leading zeros.
pub open spec fn dec_str(n: nat) -> Seq<char>
    decreases n,
{
    if n < 10 {
        seq![dec_digit_char(n)]
    } else {
        dec_str(n / 10).push(dec_digit_char(n % 10))
    }
}

/// Appends the decimal numeral of `n` to `out`.
pub fn push_u32_decimal(out: &mut String, n: u32)
    ensures
        final(out)@ == old(out)@ + dec_str(n as nat),
    decreases n,
{
    if n >= 10 {
        push_u32_decimal(out, n / 10);
    }
    let d = n % 10;
    let c: char = match d {
        0 => '0',
        1 => '1',
        2 => '2',
        3 => '3',
        4 => '4',
        5 => '5',
        6 => '6',
        7 => '7',
        8 => '8',
        _ => '9',
    };
    proof {
        assert(c == dec_digit_char((d as nat)));
    }
    let ghost prev = out@;
    push_char(out, c);
    proof {
        if n < 10 {
            assert(out@ =~= old(out)@ + dec_str(n as nat));
        } else {
            assert(out@ =~= old(out)@ + dec_str(n as nat));
        }
    }
}

} // verus!
