use vstd::prelude::*;

verus! {

/// Unicode `White_Space`: the characters that separate the words of a query.
pub open spec fn is_white_space(c: char) -> bool {
    let u = c as u32;
    (0x09 <= u <= 0x0d) || u == 0x20 || u == 0x85 || u == 0xa0 || u == 0x1680 || (0x2000 <= u
        <= 0x200a) || u == 0x2028 || u == 0x2029 || u == 0x202f || u == 0x205f || u == 0x3000
}

/// Length of the run of non-white-space characters at the start of `s`.
pub open spec fn word_len(s: Seq<char>) -> nat
    decreases s.len(),
{
    if s.len() == 0 || is_white_space(s[0]) {
        0
    } else {
        1 + word_len(s.drop_first())
    }
}

/// The maximal runs of non-white-space characters of `s`, in order.
pub open spec fn words(s: Seq<char>) -> Seq<Seq<char>>
    decreases s.len() via words_decreases
{
    if s.len() == 0 {
        Seq::empty()
    } else if is_white_space(s[0]) {
        words(s.drop_first())
    } else {
        let n = word_len(s);
        seq![s.take(n as int)] + words(s.skip(n as int))
    }
}

proof fn lemma_word_len_bound(s: Seq<char>)
    ensures
        word_len(s) <= s.len(),
    decreases s.len(),
{
    if s.len() > 0 && !is_white_space(s[0]) {
        lemma_word_len_bound(s.drop_first());
    }
}

#[via_fn]
proof fn words_decreases(s: Seq<char>) {
    lemma_word_len_bound(s);
}

/// `w` with every comma taken out.
pub open spec fn without_commas(w: Seq<char>) -> Seq<char> {
    w.filter(|c: char| c != ',')
}

/// An ASCII decimal digit.
pub open spec fn is_digit(c: char) -> bool {
    48 <= (c as u32) <= 57
}

/// Every character of `s` is a decimal digit.
pub open spec fn all_digits(s: Seq<char>) -> bool {
    forall|k: int| 0 <= k < s.len() ==> is_digit(#[trigger] s[k])
}

/// Value of a sequence of decimal digits, most significant first.
pub open spec fn digits_value(s: Seq<char>) -> int
    decreases s.len(),
{
    if s.len() == 0 {
        0
    } else {
        digits_value(s.drop_last()) * 10 + ((s.last() as u32) - 48)
    }
}

/// A non-empty run of decimal digits, with its value.
pub open spec fn magnitude(s: Seq<char>) -> Option<int> {
    if s.len() > 0 && all_digits(s) {
        Some(digits_value(s))
    } else {
        None
    }
}

/// A decimal integer with an optional leading `+` or `-`, of any size.
pub open spec fn integer_of(s: Seq<char>) -> Option<int> {
    if s.len() > 0 && s[0] == '-' {
        match magnitude(s.drop_first()) {
            Some(m) => Some(-m),
            None => None,
        }
    } else if s.len() > 0 && s[0] == '+' {
        magnitude(s.drop_first())
    } else {
        magnitude(s)
    }
}

/// What `s` reads as a 32-bit signed integer, if it is one.
pub open spec fn i32_of(s: Seq<char>) -> Option<i32> {
    match integer_of(s) {
        Some(v) => if i32::MIN <= v <= i32::MAX {
            Some(v as i32)
        } else {
            None
        },
        None => None,
    }
}

/// Lexicographic order by code point, which is the byte order of UTF-8 text.
pub open spec fn lex_less(a: Seq<char>, b: Seq<char>) -> bool
    decreases a.len(),
{
    if b.len() == 0 {
        false
    } else if a.len() == 0 {
        true
    } else if a[0] != b[0] {
        (a[0] as u32) < (b[0] as u32)
    } else {
        lex_less(a.drop_first(), b.drop_first())
    }
}

/// The characters of `s`, in order.
pub fn chars_of(s: &str) -> (r: Vec<char>)
    ensures
        r@ == s@,
{
    let mut r: Vec<char> = Vec::new();
    for c in it: s.chars()
        invariant
            r@ == it.seq().take(it.index() as int),
    {
        r.push(c);
    }
    r
}

/// Whether `c` is Unicode white space.
pub fn white_space(c: char) -> (r: bool)
    ensures
        r == is_white_space(c),
{
    let u = c as u32;
    (0x09 <= u && u <= 0x0d) || u == 0x20 || u == 0x85 || u == 0xa0 || u == 0x1680 || (0x2000 <= u
        && u <= 0x200a) || u == 0x2028 || u == 0x2029 || u == 0x202f || u == 0x205f || u == 0x3000
}

proof fn lemma_word_len(t: Seq<char>, n: int)
    requires
        0 <= n <= t.len(),
        forall|k: int| 0 <= k < n ==> !is_white_space(#[trigger] t[k]),
        n == t.len() || is_white_space(t[n]),
    ensures
        word_len(t) == n,
    decreases n,
{
    if n > 0 {
        let u = t.drop_first();
        assert forall|k: int| 0 <= k < n - 1 implies !is_white_space(#[trigger] u[k]) by {
            assert(u[k] == t[k + 1]);
        }
        assert(!is_white_space(t[0]));
        lemma_word_len(u, n - 1);
    }
}

/// Splits `s` into its white-space separated words.
pub fn split_words(s: &str) -> (r: Vec<String>)
    ensures
        r@.map_values(|w: String| w@) == words(s@),
{
    let cs = chars_of(s);
    let n = cs.len();
    let mut out: Vec<String> = Vec::new();
    let mut i: usize = 0;
    proof {
        assert(s@.skip(0) =~= s@);
        assert(out@.map_values(|w: String| w@) =~= Seq::<Seq<char>>::empty());
    }
    while i < n
        invariant
            n == cs@.len(),
            cs@ == s@,
            i <= n,
            words(s@) == out@.map_values(|w: String| w@) + words(s@.skip(i as int)),
        decreases n - i,
    {
        if white_space(cs[i]) {
            proof {
                assert(s@.skip(i as int).drop_first() =~= s@.skip(i + 1));
            }
            i += 1;
        } else {
            let start = i;
            while i < n && !white_space(cs[i])
                invariant
                    n == cs@.len(),
                    cs@ == s@,
                    start <= i <= n,
                    forall|k: int| start <= k < i ==> !is_white_space(#[trigger] s@[k]),
                decreases n - i,
            {
                i += 1;
            }
            let w = String::from_str(s.substring_char(start, i));
            proof {
                let t = s@.skip(start as int);
                assert forall|k: int| 0 <= k < i - start implies !is_white_space(#[trigger] t[k]) by {
                    assert(t[k] == s@[start + k]);
                }
                lemma_word_len(t, i - start);
                assert(t.take(i - start) =~= s@.subrange(start as int, i as int));
                assert(t.skip(i - start) =~= s@.skip(i as int));
                let old_views = out@.map_values(|w: String| w@);
                assert(out@.push(w).map_values(|w: String| w@) =~= old_views.push(w@));
                assert(old_views + words(t) =~= old_views.push(w@) + words(s@.skip(i as int)));
            }
            out.push(w);
        }
    }
    proof {
        assert(s@.skip(n as int) =~= Seq::<char>::empty());
        assert(out@.map_values(|w: String| w@) + Seq::<Seq<char>>::empty() =~= out@.map_values(
            |w: String| w@,
        ));
    }
    out
}

/// `w` with every comma taken out.
pub fn strip_commas(w: &str) -> (r: String)
    ensures
        r@ == without_commas(w@),
{
    let cs = chars_of(w);
    let mut r = String::new();
    let mut k: usize = 0;
    while k < cs.len()
        invariant
            cs@ == w@,
            k <= cs@.len(),
            r@ == without_commas(w@.take(k as int)),
        decreases cs@.len() - k,
    {
        proof {
            reveal(Seq::filter);
            let p = w@.take(k + 1);
            assert(p.drop_last() =~= w@.take(k as int));
            assert(p.last() == w@[k as int]);
        }
        if cs[k] != ',' {
            let piece = w.substring_char(k, k + 1);
            proof {
                assert(piece@ =~= seq![w@[k as int]]);
                assert(without_commas(w@.take(k + 1)) == without_commas(w@.take(k as int)).push(
                    w@[k as int],
                ));
                assert(r@ + piece@ =~= r@.push(w@[k as int]));
            }
            r.append(piece);
        }
        k += 1;
    }
    proof {
        assert(w@.take(k as int) =~= w@);
    }
    r
}

/// Whether `a` and `b` hold the same characters.
pub fn same_text(a: &str, b: &str) -> (r: bool)
    ensures
        r == (a@ == b@),
{
    let x: String = a.to_owned();
    let y: String = b.to_owned();
    x == y
}

proof fn lemma_digits_value_prefix(s: Seq<char>, k: int)
    requires
        all_digits(s),
        0 <= k <= s.len(),
    ensures
        0 <= digits_value(s.take(k)) <= digits_value(s),
    decreases s.len(),
{
    if k < s.len() {
        let d = s.drop_last();
        assert(d.take(k) =~= s.take(k));
        assert(all_digits(d)) by {
            assert forall|j: int| 0 <= j < d.len() implies is_digit(#[trigger] d[j]) by {
                assert(d[j] == s[j]);
            }
        }
        lemma_digits_value_prefix(d, k);
        lemma_digits_value_prefix(d, d.len() as int);
        assert(d.take(d.len() as int) =~= d);
        assert(is_digit(s[s.len() - 1]));
    } else {
        assert(s.take(k) =~= s);
        if s.len() > 0 {
            lemma_digits_value_prefix(s.drop_last(), s.len() - 1);
            assert(s.drop_last().take(s.len() - 1) =~= s.drop_last());
            assert(is_digit(s[s.len() - 1]));
        }
    }
}

/// Reads `s` as a 32-bit signed integer: an optional sign, then decimal digits.
pub fn parse_i32(s: &str) -> (r: Option<i32>)
    ensures
        r == i32_of(s@),
{
    let cs = chars_of(s);
    let n = cs.len();
    if n == 0 {
        return None;
    }
    let negative = cs[0] == '-';
    let start: usize = if cs[0] == '-' || cs[0] == '+' {
        1
    } else {
        0
    };
    let ghost m = s@.subrange(start as int, n as int);
    proof {
        if start == 1 {
            assert(m =~= s@.drop_first());
        } else {
            assert(m =~= s@);
        }
    }
    if start == n {
        return None;
    }
    let mut acc: i64 = 0;
    let mut k: usize = start;
    proof {
        assert(m.take(0) =~= Seq::<char>::empty());
    }
    while k < n
        invariant
            n == cs@.len(),
            cs@ == s@,
            start <= k <= n,
            m == s@.subrange(start as int, n as int),
            integer_of(s@) == (if negative {
                match magnitude(m) {
                    Some(v) => Some(-v),
                    None => None,
                }
            } else {
                magnitude(m)
            }),
            all_digits(m.take(k - start)),
            acc == digits_value(m.take(k - start)),
            0 <= acc <= 2147483648,
        decreases n - k,
    {
        let c = cs[k];
        if !((c as u32) >= 48 && (c as u32) <= 57) {
            proof {
                assert(m[k - start] == c);
                assert(!is_digit(m[k - start]));
            }
            return None;
        }
        let next = acc * 10 + ((c as u32) - 48) as i64;
        proof {
            let p = m.take(k - start + 1);
            assert(p.drop_last() =~= m.take(k - start));
            assert(p.last() == c);
            assert(all_digits(p)) by {
                assert forall|j: int| 0 <= j < p.len() implies is_digit(#[trigger] p[j]) by {
                    if j < p.len() - 1 {
                        assert(p[j] == m.take(k - start)[j]);
                    }
                }
            }
        }
        if next > 2147483648 {
            proof {
                if all_digits(m) {
                    lemma_digits_value_prefix(m, k - start + 1);
                }
            }
            return None;
        }
        acc = next;
        k += 1;
    }
    proof {
        assert(m.take(k - start) =~= m);
    }
    if negative {
        Some((-acc) as i32)
    } else if acc <= 2147483647 {
        Some(acc as i32)
    } else {
        None
    }
}

/// Whether `a` comes strictly before `b` in lexicographic order.
pub fn text_less(a: &str, b: &str) -> (r: bool)
    ensures
        r == lex_less(a@, b@),
{
    let x = chars_of(a);
    let y = chars_of(b);
    let mut i: usize = 0;
    proof {
        assert(a@.skip(0) =~= a@);
        assert(b@.skip(0) =~= b@);
    }
    loop
        invariant
            x@ == a@,
            y@ == b@,
            i <= x@.len(),
            i <= y@.len(),
            lex_less(a@, b@) == lex_less(a@.skip(i as int), b@.skip(i as int)),
        decreases x@.len() - i,
    {
        if i == y.len() {
            return false;
        }
        if i == x.len() {
            return true;
        }
        if x[i] != y[i] {
            return (x[i] as u32) < (y[i] as u32);
        }
        proof {
            assert(a@.skip(i as int).drop_first() =~= a@.skip(i + 1));
            assert(b@.skip(i as int).drop_first() =~= b@.skip(i + 1));
        }
        i += 1;
    }
}

} // verus!
