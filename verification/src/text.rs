//! Text helpers: case folding, substring search, and case-insensitive
//! equality, the notions the store's matching rules are built on.

use vstd::prelude::*;

verus! {

/// The character sequence that `str::to_lowercase` returns for a given
/// character sequence.
pub uninterp spec fn lower_of(s: Seq<char>) -> Seq<char>;

/// Relies on `str::to_lowercase`: the result depends on the characters of the
/// input alone, and an empty string lowercases to an empty string.
#[verifier::external_body]
pub fn lowercase(s: &str) -> (r: String)
    ensures
        r@ == lower_of(s@),
        s@.len() == 0 ==> r@.len() == 0,
{
    s.to_lowercase()
}

/// `needle` occurs contiguously somewhere in `hay`.
pub open spec fn seq_contains(hay: Seq<char>, needle: Seq<char>) -> bool {
    exists|i: int|
        0 <= i && i + needle.len() <= hay.len() && #[trigger] hay.subrange(i, i + needle.len())
            == needle
}

/// Substring test: does `needle` occur contiguously in `hay`?
pub fn contains_str(hay: &str, needle: &str) -> (b: bool)
    ensures
        b == seq_contains(hay@, needle@),
{
    let h: usize = hay.unicode_len();
    let n: usize = needle.unicode_len();
    if n == 0 {
        proof {
            assert(hay@.subrange(0, 0 + needle@.len() as int) =~= needle@);
        }
        return true;
    }
    if n > h {
        return false;
    }
    let mut i: usize = 0;
    while i <= h - n
        invariant
            1 <= n <= h,
            h == hay@.len(),
            n == needle@.len(),
            i <= h - n + 1,
            forall|k: int| 0 <= k < i ==> #[trigger] hay@.subrange(k, k + n) != needle@,
        decreases h - n + 1 - i,
    {
        let mut j: usize = 0;
        let mut mismatch: bool = false;
        while j < n && !mismatch
            invariant
                1 <= n <= h,
                h == hay@.len(),
                n == needle@.len(),
                i + n <= h,
                j <= n,
                !mismatch ==> forall|k: int| 0 <= k < j ==> hay@[i + k] == needle@[k],
                mismatch ==> hay@.subrange(i as int, i + n) != needle@,
            decreases n - j,
        {
            let hc: char = hay.get_char(i + j);
            let nc: char = needle.get_char(j);
            if hc != nc {
                proof {
                    assert(hay@.subrange(i as int, i + n)[j as int] == hay@[i + j]);
                }
                mismatch = true;
            }
            j += 1;
        }
        if !mismatch {
            proof {
                assert(hay@.subrange(i as int, i + n) =~= needle@);
            }
            return true;
        }
        i += 1;
    }
    proof {
        assert forall|k: int| 0 <= k && k + needle@.len() <= hay@.len() implies #[trigger] hay@.subrange(
            k,
            k + needle@.len(),
        ) != needle@ by {
            assert(k < i);
        }
    }
    false
}

/// Case-insensitive string equality: the two strings lowercase to the same
/// character sequence.
pub fn eq_ci(a: &str, b: &str) -> (r: bool)
    ensures
        r == (lower_of(a@) == lower_of(b@)),
{
    let la = lowercase(a);
    let lb = lowercase(b);
    la == lb
}

/// `c` is a decimal digit.
pub open spec fn is_digit(c: char) -> bool {
    '0' as u32 <= c as u32 && c as u32 <= '9' as u32
}

/// Every character of `s` is a decimal digit.
pub open spec fn all_digits(s: Seq<char>) -> bool {
    forall|i: int| 0 <= i < s.len() ==> is_digit(#[trigger] s[i])
}

/// The value of `s` read as decimal digits, most significant first.
pub open spec fn digits_val(s: Seq<char>) -> int
    decreases s.len(),
{
    if s.len() == 0 {
        0
    } else {
        digits_val(s.drop_last()) * 10 + (s.last() as u32 - '0' as u32)
    }
}

/// The digit part of a decimal integer literal: everything after an optional
/// leading plus sign.
pub open spec fn digits_part(s: Seq<char>) -> Seq<char> {
    if s.len() > 0 && s[0] == '+' {
        s.drop_first()
    } else {
        s
    }
}

/// What `str::parse::<usize>` accepts: an optional plus sign, then one or
/// more decimal digits whose value fits in `usize`.
pub open spec fn spec_parse_usize(s: Seq<char>) -> Option<usize> {
    let b = digits_part(s);
    if b.len() > 0 && all_digits(b) && digits_val(b) <= usize::MAX {
        Some(digits_val(b) as usize)
    } else {
        None
    }
}

proof fn lemma_digits_val_nonneg(s: Seq<char>)
    requires
        all_digits(s),
    ensures
        digits_val(s) >= 0,
    decreases s.len(),
{
    if s.len() > 0 {
        assert(all_digits(s.drop_last()));
        lemma_digits_val_nonneg(s.drop_last());
    }
}

/// The value of a prefix of a digit string never exceeds the value of the
/// whole string.
proof fn lemma_digits_val_prefix(s: Seq<char>, k: int)
    requires
        0 <= k <= s.len(),
        all_digits(s),
    ensures
        digits_val(s.take(k)) <= digits_val(s),
    decreases s.len() - k,
{
    if k == s.len() {
        assert(s.take(k) =~= s);
    } else {
        lemma_digits_val_prefix(s, k + 1);
        assert(s.take(k + 1).drop_last() =~= s.take(k));
        assert(all_digits(s.take(k)));
        lemma_digits_val_nonneg(s.take(k));
        assert(digits_val(s.take(k + 1)) == digits_val(s.take(k)) * 10 + (s[k] as u32 - '0' as u32));
    }
}

/// Decimal parse of a string into a `usize`, as `str::parse::<usize>` reads
/// it: an optional plus sign, then digits; anything else, or a value too
/// large for `usize`, is rejected.
pub fn parse_usize_str(s: &str) -> (r: Option<usize>)
    ensures
        r == spec_parse_usize(s@),
{
    let len: usize = s.unicode_len();
    let mut start: usize = 0;
    if len > 0 && s.get_char(0) == '+' {
        start = 1;
    }
    proof {
        assert(s@.skip(start as int) =~= digits_part(s@));
    }
    if start == len {
        return None;
    }
    let ghost b: Seq<char> = digits_part(s@);
    let mut x: usize = 0;
    let mut j: usize = start;
    while j < len
        invariant
            start <= j <= len,
            start < len,
            start <= 1,
            len == s@.len(),
            b == s@.skip(start as int),
            b == digits_part(s@),
            b.len() == len - start,
            all_digits(b.take(j - start)),
            x == digits_val(b.take(j - start)),
        decreases len - j,
    {
        let c: char = s.get_char(j);
        let cv: u32 = c as u32;
        if cv < 48 || cv > 57 {
            proof {
                assert(b[j - start] == s@[j as int]);
                assert(!is_digit(b[j - start]));
                assert(!all_digits(b));
            }
            return None;
        }
        let d: u32 = cv - 48;
        proof {
            assert(b.take(j + 1 - start).drop_last() =~= b.take(j - start));
            assert(b.take(j + 1 - start).last() == b[j - start]);
        }
        let y: usize = match x.checked_mul(10) {
            Some(y) => y,
            None => {
                proof {
                    if all_digits(b) {
                        lemma_digits_val_nonneg(b.take(j - start));
                        lemma_digits_val_prefix(b, j + 1 - start);
                    }
                }
                return None;
            },
        };
        let x2: usize = match y.checked_add(d as usize) {
            Some(x2) => x2,
            None => {
                proof {
                    if all_digits(b) {
                        lemma_digits_val_nonneg(b.take(j - start));
                        lemma_digits_val_prefix(b, j + 1 - start);
                    }
                }
                return None;
            },
        };
        x = x2;
        j += 1;
    }
    proof {
        assert(b.take(j - start) =~= b);
    }
    Some(x)
}


/// `c` is whitespace that interactive input is stripped of.
pub open spec fn is_space(c: char) -> bool {
    c == ' ' || c == '\t' || c == '\n' || c == '\r'
}

/// `s` with leading whitespace removed.
pub open spec fn trim_front(s: Seq<char>) -> Seq<char>
    decreases s.len(),
{
    if s.len() > 0 && is_space(s[0]) {
        trim_front(s.drop_first())
    } else {
        s
    }
}

/// `s` with trailing whitespace removed.
pub open spec fn trim_back(s: Seq<char>) -> Seq<char>
    decreases s.len(),
{
    if s.len() > 0 && is_space(s.last()) {
        trim_back(s.drop_last())
    } else {
        s
    }
}

/// `s` with leading and trailing whitespace removed.
pub open spec fn spec_trim(s: Seq<char>) -> Seq<char> {
    trim_back(trim_front(s))
}

proof fn lemma_trim_front_skip(s: Seq<char>, k: int)
    requires
        0 <= k <= s.len(),
        forall|j: int| 0 <= j < k ==> is_space(#[trigger] s[j]),
        k < s.len() ==> !is_space(s[k]),
    ensures
        trim_front(s) == s.skip(k),
    decreases k,
{
    if k == 0 {
        assert(s.skip(0) =~= s);
    } else {
        lemma_trim_front_skip(s.drop_first(), k - 1);
        assert(s.drop_first().skip(k - 1) =~= s.skip(k));
    }
}

proof fn lemma_trim_back_take(s: Seq<char>, k: int)
    requires
        0 <= k <= s.len(),
        forall|j: int| k <= j < s.len() ==> is_space(#[trigger] s[j]),
        k > 0 ==> !is_space(s[k - 1]),
    ensures
        trim_back(s) == s.take(k),
    decreases s.len(),
{
    if k == s.len() {
        assert(s.take(k) =~= s);
    } else {
        lemma_trim_back_take(s.drop_last(), k);
        assert(s.drop_last().take(k) =~= s.take(k));
    }
}

fn space_char(c: char) -> (b: bool)
    ensures
        b == is_space(c),
{
    c == ' ' || c == '\t' || c == '\n' || c == '\r'
}

/// `s` with leading and trailing whitespace removed, where whitespace is a
/// space, tab, carriage return or line feed.
pub fn trim_str(s: &str) -> (r: String)
    ensures
        r@ == spec_trim(s@),
{
    let len: usize = s.unicode_len();
    let mut lo: usize = 0;
    while lo < len && space_char(s.get_char(lo))
        invariant
            lo <= len,
            len == s@.len(),
            forall|j: int| 0 <= j < lo ==> is_space(#[trigger] s@[j]),
        decreases len - lo,
    {
        lo += 1;
    }
    proof {
        lemma_trim_front_skip(s@, lo as int);
    }
    if lo == len {
        proof {
            assert(trim_front(s@) =~= Seq::<char>::empty());
        }
        return String::new();
    }
    let mut hi: usize = len;
    while hi > lo && space_char(s.get_char(hi - 1))
        invariant
            lo <= hi <= len,
            len == s@.len(),
            forall|j: int| hi <= j < len ==> is_space(#[trigger] s@[j]),
        decreases hi,
    {
        hi -= 1;
    }
    proof {
        let f = trim_front(s@);
        assert(f == s@.skip(lo as int));
        assert forall|j: int| hi - lo <= j < f.len() implies is_space(#[trigger] f[j]) by {
            assert(f[j] == s@[j + lo]);
        }
        if hi > lo {
            assert(!is_space(s@[hi - 1]));
            assert(f[hi - lo - 1] == s@[hi - 1]);
        }
        lemma_trim_back_take(f, hi - lo);
        assert(f.take(hi - lo) =~= s@.subrange(lo as int, hi as int));
    }
    let sub: &str = s.substring_char(lo, hi);
    String::from_str(sub)
}

/// The raw comma-separated tokens of `s`, `cur` being the token read so far.
pub open spec fn split_commas(s: Seq<char>, cur: Seq<char>) -> Seq<Seq<char>>
    decreases s.len(),
{
    if s.len() == 0 {
        seq![cur]
    } else if s[0] == ',' {
        seq![cur] + split_commas(s.drop_first(), Seq::empty())
    } else {
        split_commas(s.drop_first(), cur.push(s[0]))
    }
}

/// The tag list read from comma-separated input: the tokens between commas,
/// each trimmed, with empty tokens dropped.
pub open spec fn spec_tags(s: Seq<char>) -> Seq<Seq<char>> {
    split_commas(s, Seq::empty()).map_values(|t: Seq<char>| spec_trim(t)).filter(
        |t: Seq<char>| t.len() > 0,
    )
}

/// Split comma-separated tag input into the tag list: tokens between commas,
/// trimmed, with empty tokens dropped.
pub fn split_tags(s: &str) -> (r: Vec<String>)
    ensures
        r.deep_view() == spec_tags(s@),
{
    let len: usize = s.unicode_len();
    let mut r: Vec<String> = Vec::new();
    let mut i: usize = 0;
    let mut tok_start: usize = 0;
    let ghost mut done: Seq<Seq<char>> = Seq::empty();
    proof {
        assert(s@.skip(0) =~= s@);
        assert(s@.subrange(0, 0) =~= Seq::<char>::empty());
        assert(Seq::<Seq<char>>::empty() + split_commas(s@, Seq::empty()) =~= split_commas(
            s@,
            Seq::empty(),
        ));
        assert(r.deep_view() =~= done.map_values(|t: Seq<char>| spec_trim(t)).filter(
            |t: Seq<char>| t.len() > 0,
        ));
    }
    while i < len
        invariant
            tok_start <= i <= len,
            len == s@.len(),
            split_commas(s@, Seq::empty()) == done + split_commas(
                s@.skip(i as int),
                s@.subrange(tok_start as int, i as int),
            ),
            r.deep_view() == done.map_values(|t: Seq<char>| spec_trim(t)).filter(
                |t: Seq<char>| t.len() > 0,
            ),
        decreases len - i,
    {
        let ghost cur: Seq<char> = s@.subrange(tok_start as int, i as int);
        let c: char = s.get_char(i);
        if c == ',' {
            proof {
                assert(s@.skip(i as int)[0] == s@[i as int]);
                assert(s@.skip(i as int).drop_first() =~= s@.skip(i + 1));
                assert(split_commas(s@.skip(i as int), cur) == seq![cur] + split_commas(
                    s@.skip(i + 1),
                    Seq::empty(),
                ));
                assert(done + split_commas(s@.skip(i as int), cur) =~= (done + seq![cur])
                    + split_commas(s@.skip(i + 1), Seq::empty()));
                assert(s@.subrange(i + 1, i + 1) =~= Seq::<char>::empty());
            }
            let tok: String = trim_str(s.substring_char(tok_start, i));
            proof {
                assert(tok@ == spec_trim(cur));
                assert((done + seq![cur]).drop_last() =~= done);
                assert((done + seq![cur]).last() == cur);
                Seq::lemma_filter_push(
                    done.map_values(|t: Seq<char>| spec_trim(t)),
                    spec_trim(cur),
                    |t: Seq<char>| t.len() > 0,
                );
                assert((done + seq![cur]).map_values(|t: Seq<char>| spec_trim(t)) =~= done
                    .map_values(|t: Seq<char>| spec_trim(t)).push(spec_trim(cur)));
            }
            if tok.unicode_len() > 0 {
                r.push(tok);
                proof {
                    assert(r.deep_view() =~= (done + seq![cur]).map_values(
                        |t: Seq<char>| spec_trim(t),
                    ).filter(|t: Seq<char>| t.len() > 0));
                }
            } else {
                proof {
                    assert(spec_trim(cur).len() == 0);
                    assert(r.deep_view() =~= (done + seq![cur]).map_values(
                        |t: Seq<char>| spec_trim(t),
                    ).filter(|t: Seq<char>| t.len() > 0));
                }
            }
            proof {
                done = done + seq![cur];
            }
            tok_start = i + 1;
        } else {
            proof {
                assert(s@.skip(i as int)[0] == s@[i as int]);
                assert(s@.skip(i as int).drop_first() =~= s@.skip(i + 1));
                assert(cur.push(s@[i as int]) =~= s@.subrange(tok_start as int, i + 1));
                assert(split_commas(s@.skip(i as int), cur) == split_commas(
                    s@.skip(i + 1),
                    s@.subrange(tok_start as int, i + 1),
                ));
            }
        }
        i += 1;
    }
    let ghost cur: Seq<char> = s@.subrange(tok_start as int, i as int);
    proof {
        assert(s@.skip(i as int) =~= Seq::<char>::empty());
        assert(split_commas(Seq::<char>::empty(), cur) == seq![cur]);
    }
    let tok: String = trim_str(s.substring_char(tok_start, len));
    proof {
        assert(tok@ == spec_trim(cur));
        assert((done + seq![cur]).drop_last() =~= done);
        assert((done + seq![cur]).last() == cur);
        Seq::lemma_filter_push(
            done.map_values(|t: Seq<char>| spec_trim(t)),
            spec_trim(cur),
            |t: Seq<char>| t.len() > 0,
        );
        assert((done + seq![cur]).map_values(|t: Seq<char>| spec_trim(t)) =~= done.map_values(
            |t: Seq<char>| spec_trim(t),
        ).push(spec_trim(cur)));
        assert(split_commas(s@, Seq::empty()) == done + seq![cur]);
    }
    if tok.unicode_len() > 0 {
        r.push(tok);
        proof {
            assert(r.deep_view() =~= (done + seq![cur]).map_values(|t: Seq<char>| spec_trim(t))
                .filter(|t: Seq<char>| t.len() > 0));
        }
    } else {
        proof {
            assert(spec_trim(cur).len() == 0);
            assert(r.deep_view() =~= (done + seq![cur]).map_values(|t: Seq<char>| spec_trim(t))
                .filter(|t: Seq<char>| t.len() > 0));
        }
    }
    r
}

} // verus!
