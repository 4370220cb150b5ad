//! The output-naming protocol: where a processed image is written.
//!
//! The output file sits in the source's directory and is named
//! `<base>_<filter>_<timestamp>_processed.jpg`, where `<base>` is the
//! first underscore-delimited token of the source file's stem.  Taking
//! the first token keeps repeated applications from piling prefixes up:
//! the stem of a processed file starts with the same token.

use vstd::prelude::*;

verus! {

/// The index of the last occurrence of `ch` in `s`, or minus one.
pub open spec fn find_last(s: Seq<char>, ch: char) -> int
    decreases s.len(),
{
    if s.len() == 0 {
        -1
    } else if s[s.len() - 1] == ch {
        s.len() - 1
    } else {
        find_last(s.drop_last(), ch)
    }
}

/// What `find_last` finds: the occurrence, with none after it; or no
/// occurrence at all.
pub proof fn lemma_find_last_props(s: Seq<char>, ch: char)
    ensures
        find_last(s, ch) >= -1,
        find_last(s, ch) == -1 ==> forall|j: int| 0 <= j < s.len() ==> s[j] != ch,
        find_last(s, ch) >= 0 ==> {
            &&& find_last(s, ch) < s.len()
            &&& s[find_last(s, ch)] == ch
            &&& forall|j: int| find_last(s, ch) < j < s.len() ==> s[j] != ch
        },
    decreases s.len(),
{
    if s.len() == 0 {
    } else if s[s.len() - 1] == ch {
    } else {
        lemma_find_last_props(s.drop_last(), ch);
        assert forall|j: int| 0 <= j < s.len() - 1 implies s.drop_last()[j] == s[j] by {}
    }
}

/// An occurrence with none after it is the one `find_last` finds.
pub proof fn lemma_find_last_unique(s: Seq<char>, ch: char, k: int)
    requires
        0 <= k < s.len(),
        s[k] == ch,
        forall|j: int| k < j < s.len() ==> s[j] != ch,
    ensures
        find_last(s, ch) == k,
{
    lemma_find_last_props(s, ch);
    let fl = find_last(s, ch);
    if fl == -1 {
        assert(s[k] != ch);
    } else if fl < k {
        assert(s[k] != ch);
    } else if fl > k {
        assert(s[fl] != ch);
    }
}

/// Without any occurrence `find_last` finds nothing.
pub proof fn lemma_find_last_none(s: Seq<char>, ch: char)
    requires
        forall|j: int| 0 <= j < s.len() ==> s[j] != ch,
    ensures
        find_last(s, ch) == -1,
{
    lemma_find_last_props(s, ch);
    if find_last(s, ch) >= 0 {
        assert(s[find_last(s, ch)] != ch);
    }
}

/// The index of the first occurrence of `ch` in `s`, or minus one.
pub open spec fn find_first(s: Seq<char>, ch: char) -> int
    decreases s.len(),
{
    if s.len() == 0 {
        -1
    } else if s[0] == ch {
        0
    } else {
        let r = find_first(s.subrange(1, s.len() as int), ch);
        if r == -1 {
            -1
        } else {
            1 + r
        }
    }
}

/// What `find_first` finds: the occurrence, with none before it; or no
/// occurrence at all.
pub proof fn lemma_find_first_props(s: Seq<char>, ch: char)
    ensures
        find_first(s, ch) >= -1,
        find_first(s, ch) == -1 ==> forall|j: int| 0 <= j < s.len() ==> s[j] != ch,
        find_first(s, ch) >= 0 ==> {
            &&& find_first(s, ch) < s.len()
            &&& s[find_first(s, ch)] == ch
            &&& forall|j: int| 0 <= j < find_first(s, ch) ==> s[j] != ch
        },
    decreases s.len(),
{
    if s.len() == 0 {
    } else if s[0] == ch {
    } else {
        let t = s.subrange(1, s.len() as int);
        lemma_find_first_props(t, ch);
        let r = find_first(t, ch);
        if r == -1 {
            assert forall|j: int| 0 <= j < s.len() implies s[j] != ch by {
                if j > 0 {
                    assert(t[j - 1] != ch);
                }
            }
        } else {
            assert(s[1 + r] == t[r]);
            assert forall|j: int| 0 <= j < 1 + r implies s[j] != ch by {
                if j > 0 {
                    assert(t[j - 1] != ch);
                }
            }
        }
    }
}

/// An occurrence with none before it is the one `find_first` finds.
pub proof fn lemma_find_first_unique(s: Seq<char>, ch: char, k: int)
    requires
        0 <= k < s.len(),
        s[k] == ch,
        forall|j: int| 0 <= j < k ==> s[j] != ch,
    ensures
        find_first(s, ch) == k,
{
    lemma_find_first_props(s, ch);
    let ff = find_first(s, ch);
    if ff == -1 {
        assert(s[k] != ch);
    } else if ff < k {
        assert(s[ff] != ch);
    } else if ff > k {
        assert(s[k] != ch);
    }
}

/// Without any occurrence `find_first` finds nothing.
pub proof fn lemma_find_first_none(s: Seq<char>, ch: char)
    requires
        forall|j: int| 0 <= j < s.len() ==> s[j] != ch,
    ensures
        find_first(s, ch) == -1,
{
    lemma_find_first_props(s, ch);
    if find_first(s, ch) >= 0 {
        assert(s[find_first(s, ch)] != ch);
    }
}

/// The directory part of a path: everything before the last slash; a
/// bare file name sits in `.`, and a path whose only slash leads is
/// rooted at `/`.
pub open spec fn parent_of(p: Seq<char>) -> Seq<char> {
    let fl = find_last(p, '/');
    if fl == -1 {
        seq!['.']
    } else if fl == 0 {
        seq!['/']
    } else {
        p.subrange(0, fl)
    }
}

/// The file-name part of a path: everything after the last slash.
pub open spec fn file_name_of(p: Seq<char>) -> Seq<char> {
    p.subrange(find_last(p, '/') + 1, p.len() as int)
}

/// A file name without its extension: everything before the last dot,
/// unless the dot leads the name or there is none.
pub open spec fn stem_of_name(n: Seq<char>) -> Seq<char> {
    let fd = find_last(n, '.');
    if fd <= 0 {
        n
    } else {
        n.subrange(0, fd)
    }
}

/// The stem the naming protocol uses; an empty file name falls back to
/// a fixed word.
pub open spec fn stem_of(p: Seq<char>) -> Seq<char> {
    let n = file_name_of(p);
    if n.len() == 0 {
        seq!['i', 'm', 'a', 'g', 'e']
    } else {
        stem_of_name(n)
    }
}

/// Everything before the first underscore; the whole sequence when
/// there is none.
pub open spec fn first_token(s: Seq<char>) -> Seq<char> {
    let ff = find_first(s, '_');
    if ff == -1 {
        s
    } else {
        s.subrange(0, ff)
    }
}

/// The base token a path contributes to its output names.
pub open spec fn base_of(p: Seq<char>) -> Seq<char> {
    first_token(stem_of(p))
}

/// The character for one decimal digit.
pub open spec fn digit_char(d: nat) -> char {
    if d == 0 {
        '0'
    } else if d == 1 {
        '1'
    } else if d == 2 {
        '2'
    } else if d == 3 {
        '3'
    } else if d == 4 {
        '4'
    } else if d == 5 {
        '5'
    } else if d == 6 {
        '6'
    } else if d == 7 {
        '7'
    } else if d == 8 {
        '8'
    } else {
        '9'
    }
}

/// The decimal rendering of a number, most significant digit first,
/// without leading zeroes (zero itself is one digit).
pub open spec fn dec_digits(n: nat) -> Seq<char>
    decreases n,
{
    if n < 10 {
        seq![digit_char(n)]
    } else {
        dec_digits(n / 10).push(digit_char(n % 10))
    }
}

/// Every character of a decimal rendering is a digit.
pub proof fn lemma_dec_digits_are_digits(n: nat)
    ensures
        dec_digits(n).len() >= 1,
        forall|j: int|
            0 <= j < dec_digits(n).len() ==> '0' <= #[trigger] dec_digits(n)[j] && dec_digits(
                n,
            )[j] <= '9',
    decreases n,
{
    if n >= 10 {
        lemma_dec_digits_are_digits(n / 10);
        assert forall|j: int|
            0 <= j < dec_digits(n).len() implies '0' <= #[trigger] dec_digits(n)[j] && dec_digits(
            n,
        )[j] <= '9' by {
            if j < dec_digits(n / 10).len() {
                assert(dec_digits(n)[j] == dec_digits(n / 10)[j]);
            }
        }
    }
}

/// Different numbers render as different digit strings.
pub proof fn lemma_dec_digits_injective(m: nat, n: nat)
    requires
        m != n,
    ensures
        dec_digits(m) != dec_digits(n),
    decreases m + n,
{
    if dec_digits(m) == dec_digits(n) {
        if m < 10 && n < 10 {
            assert(dec_digits(m)[0] == digit_char(m));
            assert(dec_digits(n)[0] == digit_char(n));
        } else if m < 10 && n >= 10 {
            lemma_dec_digits_are_digits(n / 10);
            assert(dec_digits(n).len() >= 2);
        } else if m >= 10 && n < 10 {
            lemma_dec_digits_are_digits(m / 10);
            assert(dec_digits(m).len() >= 2);
        } else {
            let a = dec_digits(m / 10);
            let b = dec_digits(n / 10);
            assert(dec_digits(m) == a.push(digit_char(m % 10)));
            assert(dec_digits(n) == b.push(digit_char(n % 10)));
            assert(a.push(digit_char(m % 10)).len() == a.len() + 1);
            assert(a.push(digit_char(m % 10)).last() == digit_char(m % 10));
            assert(b.push(digit_char(n % 10)).last() == digit_char(n % 10));
            assert(digit_char(m % 10) == digit_char(n % 10));
            assert(m % 10 == n % 10);
            assert(a =~= b) by {
                assert(a.len() == b.len());
                assert forall|j: int| 0 <= j < a.len() implies a[j] == b[j] by {
                    assert(a[j] == a.push(digit_char(m % 10))[j]);
                    assert(b[j] == b.push(digit_char(n % 10))[j]);
                }
            }
            if m / 10 != n / 10 {
                lemma_dec_digits_injective(m / 10, n / 10);
            }
            assert(m == 10 * (m / 10) + m % 10);
            assert(n == 10 * (n / 10) + n % 10);
        }
    }
}

/// `p` occurs in `s` starting at `i`.
pub open spec fn matches_at(s: Seq<char>, p: Seq<char>, i: int) -> bool {
    0 <= i && i + p.len() <= s.len() && s.subrange(i, i + p.len() as int) == p
}

/// The index of the first occurrence of `p` in `s`, or minus one.
pub open spec fn find_sub(s: Seq<char>, p: Seq<char>) -> int
    decreases s.len(),
{
    if p.len() > s.len() {
        -1
    } else if matches_at(s, p, 0) {
        0
    } else if s.len() == 0 {
        -1
    } else {
        let r = find_sub(s.subrange(1, s.len() as int), p);
        if r == -1 {
            -1
        } else {
            1 + r
        }
    }
}

/// `p` occurs somewhere in `s`.
pub open spec fn contains_sub(s: Seq<char>, p: Seq<char>) -> bool {
    find_sub(s, p) >= 0
}

/// What `find_sub` finds: the first occurrence, or none at all.
pub proof fn lemma_find_sub_props(s: Seq<char>, p: Seq<char>)
    ensures
        find_sub(s, p) >= -1,
        find_sub(s, p) == -1 ==> forall|i: int| !matches_at(s, p, i),
        find_sub(s, p) >= 0 ==> {
            &&& find_sub(s, p) + p.len() <= s.len()
            &&& matches_at(s, p, find_sub(s, p))
            &&& forall|i: int| 0 <= i < find_sub(s, p) ==> !matches_at(s, p, i)
        },
    decreases s.len(),
{
    if p.len() > s.len() {
        assert forall|i: int| !matches_at(s, p, i) by {}
    } else if matches_at(s, p, 0) {
    } else if s.len() == 0 {
        assert forall|i: int| !matches_at(s, p, i) by {}
    } else {
        let t = s.subrange(1, s.len() as int);
        lemma_find_sub_props(t, p);
        let r = find_sub(t, p);
        assert forall|i: int| 1 <= i && i + p.len() <= s.len() implies matches_at(s, p, i)
            == matches_at(t, p, i - 1) by {
            assert(s.subrange(i, i + p.len() as int) =~= t.subrange(
                i - 1,
                i - 1 + p.len() as int,
            ));
        }
        if r == -1 {
            assert forall|i: int| !matches_at(s, p, i) by {
                if 1 <= i && i + p.len() <= s.len() {
                    assert(!matches_at(t, p, i - 1));
                }
            }
        } else {
            assert(matches_at(t, p, r));
            assert(matches_at(s, p, 1 + r));
            assert forall|i: int| 0 <= i < 1 + r implies !matches_at(s, p, i) by {
                if i >= 1 && i + p.len() <= s.len() {
                    assert(!matches_at(t, p, i - 1));
                }
            }
        }
    }
}

/// An occurrence with none before it is the one `find_sub` finds.
pub proof fn lemma_find_sub_unique(s: Seq<char>, p: Seq<char>, k: int)
    requires
        matches_at(s, p, k),
        forall|i: int| 0 <= i < k ==> !matches_at(s, p, i),
    ensures
        find_sub(s, p) == k,
{
    lemma_find_sub_props(s, p);
    let fs = find_sub(s, p);
    if fs == -1 {
        assert(!matches_at(s, p, k));
    } else if fs < k {
        assert(!matches_at(s, p, fs));
    } else if fs > k {
        assert(!matches_at(s, p, k));
    }
}

/// Without any occurrence `find_sub` finds nothing.
pub proof fn lemma_find_sub_none(s: Seq<char>, p: Seq<char>)
    requires
        forall|i: int| 0 <= i <= s.len() - p.len() ==> !matches_at(s, p, i),
    ensures
        find_sub(s, p) == -1,
{
    lemma_find_sub_props(s, p);
    if find_sub(s, p) >= 0 {
        assert(!matches_at(s, p, find_sub(s, p)));
    }
}

/// The tail every output name carries.
pub open spec fn out_suffix() -> Seq<char> {
    seq!['_', 'p', 'r', 'o', 'c', 'e', 's', 's', 'e', 'd', '.', 'j', 'p', 'g']
}

/// The mark a processed file carries in its name, extension aside.
pub open spec fn processed_marker() -> Seq<char> {
    seq!['_', 'p', 'r', 'o', 'c', 'e', 's', 's', 'e', 'd']
}

/// How a filter shows up in a name it was baked into: set off by
/// underscores on both sides.
pub open spec fn reapply_marker(f: Seq<char>) -> Seq<char> {
    seq!['_'] + f + seq!['_']
}

/// The full output path for a source path, a filter name and a
/// timestamp in milliseconds.
pub open spec fn spec_output_path(p: Seq<char>, f: Seq<char>, ts: u64) -> Seq<char> {
    parent_of(p) + seq!['/'] + base_of(p) + seq!['_'] + f + seq!['_'] + dec_digits(ts as nat)
        + out_suffix()
}

/// A path cut just before the first processed-file mark; a path without
/// the mark stays whole.
pub open spec fn spec_strip(s: Seq<char>) -> Seq<char> {
    if contains_sub(s, processed_marker()) {
        s.subrange(0, find_sub(s, processed_marker()))
    } else {
        s
    }
}

/// Finds the last occurrence of a character, scanning forward.
pub fn find_last_char(s: &str, ch: char) -> (r: Option<usize>)
    ensures
        match r {
            None => find_last(s@, ch) == -1,
            Some(k) => k < s@.len() && find_last(s@, ch) == k,
        },
{
    let n = s.unicode_len();
    let mut best: Option<usize> = None;
    let mut i: usize = 0;
    while i < n
        invariant
            i <= n,
            n == s@.len(),
            match best {
                None => forall|j: int| 0 <= j < i ==> s@[j] != ch,
                Some(k) => k < i && s@[k as int] == ch && forall|j: int|
                    k < j < i ==> s@[j] != ch,
            },
        decreases n - i,
    {
        let c = s.get_char(i);
        if c == ch {
            best = Some(i);
        }
        i += 1;
    }
    proof {
        match best {
            None => lemma_find_last_none(s@, ch),
            Some(k) => lemma_find_last_unique(s@, ch, k as int),
        }
    }
    best
}

/// Finds the first occurrence of a character.
pub fn find_first_char(s: &str, ch: char) -> (r: Option<usize>)
    ensures
        match r {
            None => find_first(s@, ch) == -1,
            Some(k) => k < s@.len() && find_first(s@, ch) == k,
        },
{
    let n = s.unicode_len();
    let mut i: usize = 0;
    while i < n
        invariant
            i <= n,
            n == s@.len(),
            forall|j: int| 0 <= j < i ==> s@[j] != ch,
        decreases n - i,
    {
        let c = s.get_char(i);
        if c == ch {
            proof {
                lemma_find_first_unique(s@, ch, i as int);
            }
            return Some(i);
        }
        i += 1;
    }
    proof {
        lemma_find_first_none(s@, ch);
    }
    None
}

/// Finds the first occurrence of one string inside another.
pub fn find_sub_str(s: &str, p: &str) -> (r: Option<usize>)
    ensures
        match r {
            None => find_sub(s@, p@) == -1,
            Some(k) => find_sub(s@, p@) == k,
        },
{
    let n = s.unicode_len();
    let m = p.unicode_len();
    if m > n {
        return None;
    }
    let mut i: usize = 0;
    while i <= n - m
        invariant
            m <= n,
            n == s@.len(),
            m == p@.len(),
            i <= n - m + 1,
            forall|q: int| 0 <= q < i ==> !matches_at(s@, p@, q),
        decreases n - m - i + 1,
    {
        let mut j: usize = 0;
        let mut ok = true;
        let ghost mut bad: int = 0;
        while j < m
            invariant
                j <= m,
                i + m <= n,
                n == s@.len(),
                m == p@.len(),
                ok ==> forall|q: int| 0 <= q < j ==> s@[i + q] == p@[q],
                !ok ==> 0 <= bad < m && s@[i + bad] != p@[bad],
            decreases m - j,
        {
            if s.get_char(i + j) != p.get_char(j) {
                proof {
                    bad = j as int;
                }
                ok = false;
                j = m;
            } else {
                j += 1;
            }
        }
        if ok {
            proof {
                assert(s@.subrange(i as int, i as int + m as int) =~= p@);
                lemma_find_sub_unique(s@, p@, i as int);
            }
            return Some(i);
        }
        proof {
            if matches_at(s@, p@, i as int) {
                assert(s@.subrange(i as int, i as int + m as int)[bad] == p@[bad]);
            }
        }
        i += 1;
    }
    proof {
        lemma_find_sub_none(s@, p@);
    }
    None
}

/// The string for one decimal digit.
fn digit_str(d: u64) -> (r: &'static str)
    requires
        d < 10,
    ensures
        r@ == seq![digit_char(d as nat)],
{
    proof {
        reveal_strlit("0");
        reveal_strlit("1");
        reveal_strlit("2");
        reveal_strlit("3");
        reveal_strlit("4");
        reveal_strlit("5");
        reveal_strlit("6");
        reveal_strlit("7");
        reveal_strlit("8");
        reveal_strlit("9");
    }
    let r: &'static str = if d == 0 {
        "0"
    } else if d == 1 {
        "1"
    } else if d == 2 {
        "2"
    } else if d == 3 {
        "3"
    } else if d == 4 {
        "4"
    } else if d == 5 {
        "5"
    } else if d == 6 {
        "6"
    } else if d == 7 {
        "7"
    } else if d == 8 {
        "8"
    } else {
        "9"
    };
    proof {
        assert(r@ =~= seq![digit_char(d as nat)]);
    }
    r
}

/// Builds the output path for a source path, a filter name and a
/// timestamp: same directory, `<base>_<filter>_<timestamp>_processed.jpg`.
pub fn output_path(input_path: &str, filter: &str, timestamp: u64) -> (r: String)
    ensures
        r@ == spec_output_path(input_path@, filter@, timestamp),
{
    proof {
        reveal_strlit(".");
        reveal_strlit("/");
        reveal_strlit("_");
        reveal_strlit("image");
        reveal_strlit("_processed.jpg");
    }
    let n = input_path.unicode_len();
    let slash = find_last_char(input_path, '/');
    let mut out = String::new();
    match slash {
        None => out.append("."),
        Some(k) => {
            if k == 0 {
                out.append("/");
            } else {
                out.append(input_path.substring_char(0, k));
            }
        },
    }
    proof {
        assert(out@ == parent_of(input_path@));
    }
    out.append("/");
    let name_start: usize = match slash {
        None => 0,
        Some(k) => k + 1,
    };
    let name = input_path.substring_char(name_start, n);
    proof {
        assert(name@ == file_name_of(input_path@));
    }
    let m = name.unicode_len();
    let stem: &str = if m == 0 {
        "image"
    } else {
        let dot = find_last_char(name, '.');
        match dot {
            None => name,
            Some(dk) => {
                if dk == 0 {
                    name
                } else {
                    name.substring_char(0, dk)
                }
            },
        }
    };
    proof {
        assert(stem@ == stem_of(input_path@));
    }
    let us = find_first_char(stem, '_');
    let base: &str = match us {
        None => stem,
        Some(uk) => stem.substring_char(0, uk),
    };
    proof {
        assert(base@ == base_of(input_path@));
    }
    out.append(base);
    out.append("_");
    out.append(filter);
    out.append("_");
    let num = u64_to_dec(timestamp);
    out.append(num.as_str());
    out.append("_processed.jpg");
    proof {
        assert(("/"@) =~= seq!['/']);
        assert(("_"@) =~= seq!['_']);
        assert(("_processed.jpg"@) =~= out_suffix());
        assert(out@ =~= spec_output_path(input_path@, filter@, timestamp));
    }
    out
}

/// Whether a path's name was already stamped with this filter: the
/// filter's name sits in it between two underscores.
pub fn is_reapplying(input_path: &str, filter: &str) -> (r: bool)
    ensures
        r == contains_sub(input_path@, reapply_marker(filter@)),
{
    proof {
        reveal_strlit("_");
    }
    let mut needle = String::from_str("_");
    needle.append(filter);
    needle.append("_");
    proof {
        assert(needle@ =~= reapply_marker(filter@));
    }
    let f = find_sub_str(input_path, needle.as_str());
    proof {
        lemma_find_sub_props(input_path@, reapply_marker(filter@));
    }
    f.is_some()
}

/// Cuts a path just before its processed-file mark, recovering the name
/// the pristine original was stored under; a path without the mark comes
/// back whole.
pub fn strip_processed(input_path: &str) -> (r: String)
    ensures
        r@ == spec_strip(input_path@),
{
    proof {
        reveal_strlit("_processed");
        assert(("_processed"@) =~= processed_marker());
    }
    let k = find_sub_str(input_path, "_processed");
    match k {
        None => String::from_str(input_path),
        Some(k) => {
            proof {
                lemma_find_sub_props(input_path@, processed_marker());
            }
            String::from_str(input_path.substring_char(0, k))
        },
    }
}

/// The base token of a path holds no slash and no underscore: it stops
/// at the first underscore of a stem that itself sits after the last
/// slash.
pub proof fn lemma_base_has_no_special(p: Seq<char>)
    ensures
        forall|j: int|
            0 <= j < base_of(p).len() ==> base_of(p)[j] != '/' && #[trigger] base_of(p)[j] != '_',
{
    let name = file_name_of(p);
    lemma_find_last_props(p, '/');
    assert forall|j: int| 0 <= j < name.len() implies #[trigger] name[j] != '/' by {
        assert(name[j] == p[find_last(p, '/') + 1 + j]);
    }
    let stem = stem_of(p);
    assert forall|j: int| 0 <= j < stem.len() implies #[trigger] stem[j] != '/' by {
        if name.len() == 0 {
            assert(stem =~= seq!['i', 'm', 'a', 'g', 'e']);
            assert(seq!['i', 'm', 'a', 'g', 'e'].len() == 5);
            assert(stem[j] == seq!['i', 'm', 'a', 'g', 'e'][j]);
        } else {
            assert(stem == stem_of_name(name));
            let fd = find_last(name, '.');
            if fd <= 0 {
                assert(stem == name);
                assert(stem[j] == name[j]);
            } else {
                lemma_find_last_props(name, '.');
                assert(stem == name.subrange(0, fd));
                assert(stem[j] == name[j]);
            }
        }
    }
    let ff = find_first(stem, '_');
    lemma_find_first_props(stem, '_');
    let base = base_of(p);
    assert forall|j: int| 0 <= j < base.len() implies base[j] != '/' && #[trigger] base[j]
        != '_' by {
        assert(base[j] == stem[j]);
        if ff == -1 {
        } else {
            assert(j < ff);
        }
    }
}

/// Where each part of a freshly built output path stands: it lives in
/// the source's directory and its name starts with the source's base
/// token, so chaining keeps both.
pub proof fn lemma_output_path_parts(p: Seq<char>, f: Seq<char>, ts: u64)
    requires
        forall|j: int| 0 <= j < f.len() ==> f[j] != '/',
    ensures
        parent_of(spec_output_path(p, f, ts)) == parent_of(p),
        base_of(spec_output_path(p, f, ts)) == base_of(p),
        spec_output_path(p, f, ts).len() == parent_of(p).len() + base_of(p).len() + f.len()
            + dec_digits(ts as nat).len() + 17,
{
    let o = spec_output_path(p, f, ts);
    let par = parent_of(p);
    let base = base_of(p);
    let d = dec_digits(ts as nat);
    let suf = out_suffix();
    let rest = base + seq!['_'] + f + seq!['_'] + d + suf;
    assert(o =~= par + seq!['/'] + rest);
    lemma_base_has_no_special(p);
    lemma_dec_digits_are_digits(ts as nat);
    let li = par.len() as int;
    assert(li >= 1) by {
        lemma_find_last_props(p, '/');
    }
    assert(o[li] == '/');
    assert forall|j: int| 0 <= j < rest.len() implies #[trigger] rest[j] != '/' by {
        let b1 = base.len() as int;
        let b2 = b1 + 1;
        let b3 = b2 + f.len() as int;
        let b4 = b3 + 1;
        let b5 = b4 + d.len() as int;
        if j < b1 {
            assert(rest[j] == base[j]);
        } else if j < b2 {
            assert(rest[j] == '_');
        } else if j < b3 {
            assert(rest[j] == f[j - b2]);
        } else if j < b4 {
            assert(rest[j] == '_');
        } else if j < b5 {
            assert(rest[j] == d[j - b4]);
            assert('0' <= d[j - b4] <= '9');
        } else {
            assert(rest[j] == suf[j - b5]);
        }
    }
    assert forall|j: int| li < j < o.len() implies o[j] != '/' by {
        assert(o[j] == rest[j - li - 1]);
    }
    lemma_find_last_unique(o, '/', li);
    assert(parent_of(o) =~= par);
    let nm = file_name_of(o);
    assert(nm =~= rest);
    let dp = rest.len() as int - 4;
    assert(rest[dp] == '.') by {
        let b5 = base.len() as int + 2 + f.len() as int + d.len() as int;
        assert(rest[dp] == suf[dp - b5]);
    }
    assert forall|j: int| dp < j < rest.len() implies rest[j] != '.' by {
        let b5 = base.len() as int + 2 + f.len() as int + d.len() as int;
        assert(rest[j] == suf[j - b5]);
    }
    lemma_find_last_unique(rest, '.', dp);
    assert(dp > 0);
    let stem2 = stem_of(o);
    assert(stem2 =~= rest.subrange(0, dp));
    let bl = base.len() as int;
    assert(stem2[bl] == '_') by {
        assert(stem2[bl] == rest[bl]);
    }
    assert forall|j: int| 0 <= j < bl implies stem2[j] != '_' by {
        assert(stem2[j] == rest[j]);
        assert(rest[j] == base[j]);
    }
    lemma_find_first_unique(stem2, '_', bl);
    assert(base_of(o) =~= base);
}

/// Chaining keeps the name apart and the token fixed: two applications
/// of one filter at different times name two different files, both in
/// the source's directory, both carrying the source's base token.
pub proof fn lemma_chained_naming(p: Seq<char>, f: Seq<char>, t1: u64, t2: u64)
    requires
        t1 != t2,
        forall|j: int| 0 <= j < f.len() ==> f[j] != '/',
    ensures
        spec_output_path(p, f, t1) != spec_output_path(spec_output_path(p, f, t1), f, t2),
        base_of(spec_output_path(p, f, t1)) == base_of(p),
        base_of(spec_output_path(spec_output_path(p, f, t1), f, t2)) == base_of(p),
        parent_of(spec_output_path(p, f, t1)) == parent_of(p),
        parent_of(spec_output_path(spec_output_path(p, f, t1), f, t2)) == parent_of(p),
{
    let o1 = spec_output_path(p, f, t1);
    let o2 = spec_output_path(o1, f, t2);
    lemma_output_path_parts(p, f, t1);
    lemma_output_path_parts(o1, f, t2);
    let par = parent_of(p);
    let base = base_of(p);
    let d1 = dec_digits(t1 as nat);
    let d2 = dec_digits(t2 as nat);
    lemma_dec_digits_injective(t1 as nat, t2 as nat);
    lemma_dec_digits_are_digits(t1 as nat);
    lemma_dec_digits_are_digits(t2 as nat);
    if o1 == o2 {
        assert(o1.len() == o2.len());
        assert(d1.len() == d2.len());
        let head = par.len() as int + 1 + base.len() as int + 1 + f.len() as int + 1;
        assert forall|j: int| 0 <= j < d1.len() implies d1[j] == d2[j] by {
            assert(o1 =~= par + seq!['/'] + (base + seq!['_'] + f + seq!['_'] + d1
                + out_suffix()));
            assert(o2 =~= par + seq!['/'] + (base + seq!['_'] + f + seq!['_'] + d2
                + out_suffix()));
            assert(o1[head + j] == d1[j]);
            assert(o2[head + j] == d2[j]);
        }
        assert(d1 =~= d2);
    }
}

/// A source that does not itself carry the processed-file tail gets an
/// output path different from its own: every output path ends in the
/// tail.
pub proof fn lemma_fresh_output_differs(p: Seq<char>, f: Seq<char>, ts: u64)
    requires
        !(p.len() >= out_suffix().len() && p.subrange(
            p.len() - out_suffix().len(),
            p.len() as int,
        ) == out_suffix()),
    ensures
        spec_output_path(p, f, ts) != p,
{
    let o = spec_output_path(p, f, ts);
    assert(o.subrange(o.len() - out_suffix().len(), o.len() as int) =~= out_suffix());
    if o == p {
        assert(p.subrange(p.len() - out_suffix().len(), p.len() as int) == out_suffix());
    }
}

/// Renders a timestamp in decimal.
pub fn u64_to_dec(n: u64) -> (s: String)
    ensures
        s@ == dec_digits(n as nat),
    decreases n,
{
    if n < 10 {
        String::from_str(digit_str(n))
    } else {
        let mut s = u64_to_dec(n / 10);
        s.append(digit_str(n % 10));
        proof {
            assert(s@ =~= dec_digits(n as nat));
        }
        s
    }
}

} // verus!
