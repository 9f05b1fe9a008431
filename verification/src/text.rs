use vstd::prelude::*;

verus! {

/// `c` equals the lowercase ASCII letter or symbol `l`, up to ASCII case.
pub open spec fn char_matches_lower(c: char, l: char) -> bool {
    c == l || ('A' <= c && c <= 'Z' && c as u32 + 32 == l as u32)
}

/// `s`, lowercased in its ASCII letters, equals the lowercase text `lit`.
pub open spec fn matches_ignoring_case(s: Seq<char>, lit: Seq<char>) -> bool {
    &&& s.len() == lit.len()
    &&& forall|i: int| 0 <= i < s.len() ==> char_matches_lower(#[trigger] s[i], lit[i])
}

/// The character of a decimal digit.
pub open spec fn digit_char(d: nat) -> char {
    if d == 0 {
        '0'
    } else if d == 1 {
        '1'
    } else if d == 2 {
        '2'
    } else if d == 3 {
        '3'
    } else if d == 4 {
        '4'
    } else if d == 5 {
        '5'
    } else if d == 6 {
        '6'
    } else if d == 7 {
        '7'
    } else if d == 8 {
        '8'
    } else {
        '9'
    }
}

/// The decimal digits of `n`, most significant first, without leading zeros.
pub open spec fn decimal(n: nat) -> Seq<char>
    decreases n,
{
    if n < 10 {
        seq![digit_char(n)]
    } else {
        decimal(n / 10).push(digit_char(n % 10))
    }
}

/// The texts of `words`, with `sep` between each two.
pub open spec fn join(words: Seq<Seq<char>>, sep: Seq<char>) -> Seq<char>
    decreases words.len(),
{
    if words.len() == 0 {
        Seq::empty()
    } else if words.len() == 1 {
        words[0]
    } else {
        join(words.drop_last(), sep) + sep + words.last()
    }
}

/// Whether `s` equals the lowercase text `lit` once its ASCII letters are lowercased.
pub fn eq_ignoring_case(s: &str, lit: &str) -> (r: bool)
    ensures
        r == matches_ignoring_case(s@, lit@),
{
    let n = s.unicode_len();
    let m = lit.unicode_len();
    if n != m {
        return false;
    }
    let mut i: usize = 0;
    while i < n
        invariant
            n == s@.len(),
            m == lit@.len(),
            n == m,
            i <= n,
            forall|j: int| 0 <= j < i ==> char_matches_lower(#[trigger] s@[j], lit@[j]),
        decreases n - i,
    {
        let c = s.get_char(i);
        let l = lit.get_char(i);
        let ok = c == l || ('A' <= c && c <= 'Z' && (c as u32) + 32 == (l as u32));
        if !ok {
            return false;
        }
        i = i + 1;
    }
    true
}

/// The text of one decimal digit.
fn digit_text(d: u64) -> (s: &'static str)
    requires
        d < 10,
    ensures
        s@ == seq![digit_char(d as nat)],
{
    proof {
        reveal_strlit("0");
        reveal_strlit("1");
        reveal_strlit("2");
        reveal_strlit("3");
        reveal_strlit("4");
        reveal_strlit("5");
        reveal_strlit("6");
        reveal_strlit("7");
        reveal_strlit("8");
        reveal_strlit("9");
    }
    if d == 0 {
        "0"
    } else if d == 1 {
        "1"
    } else if d == 2 {
        "2"
    } else if d == 3 {
        "3"
    } else if d == 4 {
        "4"
    } else if d == 5 {
        "5"
    } else if d == 6 {
        "6"
    } else if d == 7 {
        "7"
    } else if d == 8 {
        "8"
    } else {
        "9"
    }
}

/// Appends the decimal digits of `n` to `out`.
pub fn push_decimal(out: &mut String, n: u64)
    ensures
        final(out)@ == old(out)@ + decimal(n as nat),
    decreases n,
{
    if n < 10 {
        out.append(digit_text(n));
    } else {
        push_decimal(out, n / 10);
        out.append(digit_text(n % 10));
        proof {
            assert(decimal(n as nat) == decimal((n / 10) as nat).push(digit_char((n % 10) as nat)));
            assert(old(out)@ + decimal((n / 10) as nat) + seq![digit_char((n % 10) as nat)]
                =~= old(out)@ + decimal(n as nat));
        }
    }
}

/// The decimal text of `n`.
pub fn decimal_text(n: u64) -> (s: String)
    ensures
        s@ == decimal(n as nat),
{
    let mut s = String::new();
    push_decimal(&mut s, n);
    proof {
        assert(Seq::<char>::empty() + decimal(n as nat) =~= decimal(n as nat));
    }
    s
}

/// Joining one more word appends the separator and the word.
pub proof fn lemma_join_push(words: Seq<Seq<char>>, w: Seq<char>, sep: Seq<char>)
    ensures
        join(words.push(w), sep) == if words.len() == 0 {
            w
        } else {
            join(words, sep) + sep + w
        },
{
    assert(words.push(w).drop_last() =~= words);
}

/// Joins `words` with `sep` between each two.
pub fn join_texts(words: &Vec<String>, sep: &str) -> (s: String)
    ensures
        s@ == join(words@.map_values(|w: String| w@), sep@),
{
    let mut s = String::new();
    let ghost views = words@.map_values(|w: String| w@);
    let mut i: usize = 0;
    while i < words.len()
        invariant
            i <= words.len(),
            views == words@.map_values(|w: String| w@),
            s@ == join(views.take(i as int), sep@),
        decreases words.len() - i,
    {
        proof {
            assert(views.take(i as int + 1) =~= views.take(i as int).push(views[i as int]));
            lemma_join_push(views.take(i as int), views[i as int], sep@);
        }
        if i > 0 {
            s.append(sep);
        }
        s.append(words[i].as_str());
        i = i + 1;
        proof {
            if i == 1 {
                assert(Seq::<char>::empty() + views[0] =~= views[0]);
            }
        }
    }
    proof {
        assert(views.take(words.len() as int) =~= views);
    }
    s
}

} // verus!

verus! {

/// The position of the first space in `s`, if any.
pub open spec fn first_space(s: Seq<char>) -> Option<int> {
    if exists|i: int| 0 <= i < s.len() && s[i] == ' ' {
        Some(choose|i: int| 0 <= i < s.len() && s[i] == ' ' && forall|j: int| 0 <= j < i ==> s[j] != ' ')
    } else {
        None
    }
}

/// `s` split at its first space: the head and, when there is a space, the rest after it.
pub open spec fn split_once_space(s: Seq<char>) -> (Seq<char>, Option<Seq<char>>) {
    match first_space(s) {
        Some(i) => (s.take(i), Some(s.skip(i + 1))),
        None => (s, None),
    }
}

/// A word without spaces is split off whole: alone it has no rest, and followed by a space
/// and more text, that text is its rest.
pub proof fn lemma_split_word(w: Seq<char>, arg: Seq<char>)
    requires
        forall|i: int| 0 <= i < w.len() ==> w[i] != ' ',
    ensures
        split_once_space(w) == (w, Option::<Seq<char>>::None),
        split_once_space(w + seq![' '] + arg) == (w, Some(arg)),
{
    let s = w + seq![' '] + arg;
    let n = w.len() as int;
    assert(s[n] == ' ');
    assert(forall|j: int| 0 <= j < n ==> s[j] == w[j]);
    let i = choose|i: int| 0 <= i < s.len() && s[i] == ' ' && forall|j: int| 0 <= j < i ==> s[j] != ' ';
    assert(0 <= n < s.len() && s[n] == ' ' && forall|j: int| 0 <= j < n ==> s[j] != ' ');
    assert(first_space(s) == Some(i));
    assert(i == n) by {
        if i < n {
            assert(s[i] == w[i]);
        }
        if i > n {
            assert(s[n] != ' ');
        }
    }
    assert(s.take(n) =~= w);
    assert(s.skip(n + 1) =~= arg);
}

/// Whether two texts are equal.
pub fn same_text(a: &str, b: &str) -> (r: bool)
    ensures
        r == (a@ == b@),
{
    let n = a.unicode_len();
    let m = b.unicode_len();
    if n != m {
        return false;
    }
    let mut i: usize = 0;
    while i < n
        invariant
            n == a@.len(),
            m == b@.len(),
            n == m,
            i <= n,
            forall|j: int| 0 <= j < i ==> a@[j] == b@[j],
        decreases n - i,
    {
        if a.get_char(i) != b.get_char(i) {
            return false;
        }
        i = i + 1;
    }
    assert(a@ =~= b@);
    true
}

/// Splits `s` at its first space into the head and, when there is a space, the rest after it.
pub fn split_once_space_text(s: &str) -> (r: (&str, Option<&str>))
    ensures
        r.0@ == split_once_space(s@).0,
        r.1 matches Some(rest) ==> split_once_space(s@).1 == Some(rest@),
        r.1 is None <==> split_once_space(s@).1 is None,
{
    let n = s.unicode_len();
    let mut i: usize = 0;
    while i < n
        invariant
            n == s@.len(),
            i <= n,
            forall|j: int| 0 <= j < i ==> s@[j] != ' ',
        decreases n - i,
    {
        if s.get_char(i) == ' ' {
            let head = s.substring_char(0, i);
            let rest = s.substring_char(i + 1, n);
            proof {
                let k = choose|k: int| 0 <= k < s@.len() && s@[k] == ' ' && forall|j: int| 0 <= j < k ==> s@[j] != ' ';
                assert(s@[i as int] == ' ');
                assert(exists|k: int| 0 <= k < s@.len() && s@[k] == ' ' && forall|j: int| 0 <= j < k ==> s@[j] != ' ');
                assert(k == i) by {
                    if k < i {
                        assert(s@[k] != ' ');
                    }
                    if k > i {
                        assert(s@[i as int] != ' ');
                    }
                }
                assert(head@ =~= s@.take(i as int));
                assert(rest@ =~= s@.skip(i as int + 1));
            }
            return (head, Some(rest));
        }
        i = i + 1;
    }
    proof {
        assert(!exists|k: int| 0 <= k < s@.len() && s@[k] == ' ');
    }
    (s, None)
}

/// Whether `a` comes strictly before `b` in lexicographic order of their characters' code
/// points (the order of their UTF-8 bytes): the first differing character decides, and a
/// proper prefix comes first.
pub open spec fn text_less(a: Seq<char>, b: Seq<char>) -> bool
    decreases a.len(),
{
    if a.len() == 0 {
        b.len() > 0
    } else if b.len() == 0 {
        false
    } else if a[0] != b[0] {
        (a[0] as int) < (b[0] as int)
    } else {
        text_less(a.drop_first(), b.drop_first())
    }
}

/// No text comes before itself, and of two texts at most one comes first.
pub proof fn lemma_text_less_asymmetric(a: Seq<char>, b: Seq<char>)
    ensures
        !text_less(a, a),
        text_less(a, b) ==> !text_less(b, a),
    decreases a.len(),
{
    if a.len() > 0 && b.len() > 0 {
        lemma_text_less_asymmetric(a.drop_first(), b.drop_first());
    }
    if a.len() > 0 {
        lemma_text_less_asymmetric(a.drop_first(), a.drop_first());
    }
}

/// Of two different texts, one comes first.
pub proof fn lemma_text_less_total(a: Seq<char>, b: Seq<char>)
    requires
        a != b,
    ensures
        text_less(a, b) || text_less(b, a),
    decreases a.len(),
{
    if a.len() > 0 && b.len() > 0 && a[0] == b[0] {
        if a.drop_first() == b.drop_first() {
            assert(a =~= seq![a[0]] + a.drop_first());
            assert(b =~= seq![b[0]] + b.drop_first());
        }
        lemma_text_less_total(a.drop_first(), b.drop_first());
    }
    if a.len() == 0 && b.len() == 0 {
        assert(a =~= b);
    }
    if a.len() > 0 && b.len() > 0 && a[0] != b[0] {
        assert((a[0] as int) != (b[0] as int));
    }
}

/// The order is transitive.
pub proof fn lemma_text_less_transitive(a: Seq<char>, b: Seq<char>, c: Seq<char>)
    requires
        text_less(a, b),
        text_less(b, c),
    ensures
        text_less(a, c),
    decreases a.len(),
{
    if a.len() > 0 && b.len() > 0 && c.len() > 0 && a[0] == b[0] && b[0] == c[0] {
        lemma_text_less_transitive(a.drop_first(), b.drop_first(), c.drop_first());
    }
}

/// Whether `a` comes strictly before `b` in the order of their characters' code points.
pub fn text_less_than(a: &str, b: &str) -> (r: bool)
    ensures
        r == text_less(a@, b@),
{
    let n = a.unicode_len();
    let m = b.unicode_len();
    let mut i: usize = 0;
    proof {
        assert(a@.skip(0) =~= a@);
        assert(b@.skip(0) =~= b@);
    }
    while i < n && i < m
        invariant
            n == a@.len(),
            m == b@.len(),
            i <= n,
            i <= m,
            forall|j: int| 0 <= j < i ==> a@[j] == b@[j],
            text_less(a@, b@) == text_less(a@.skip(i as int), b@.skip(i as int)),
        decreases n - i,
    {
        let ca = a.get_char(i);
        let cb = b.get_char(i);
        proof {
            assert(a@.skip(i as int)[0] == ca);
            assert(b@.skip(i as int)[0] == cb);
            assert(a@.skip(i as int).drop_first() =~= a@.skip(i + 1));
            assert(b@.skip(i as int).drop_first() =~= b@.skip(i + 1));
        }
        if ca != cb {
            return (ca as u32) < (cb as u32);
        }
        i = i + 1;
    }
    proof {
        assert(a@.skip(i as int).len() == n - i);
        assert(b@.skip(i as int).len() == m - i);
    }
    i == n && i < m
}

/// Whether a character is a decimal digit.
pub open spec fn is_digit(c: char) -> bool {
    '0' <= c && c <= '9'
}

/// The value of a string of decimal digits, most significant first.
pub open spec fn digits_value(s: Seq<char>) -> nat
    decreases s.len(),
{
    if s.len() == 0 {
        0
    } else {
        digits_value(s.drop_last()) * 10 + (s.last() as int - '0' as int) as nat
    }
}

/// The digits of an unsigned number: the text after an optional plus sign.
pub open spec fn unsigned_digits(s: Seq<char>) -> Seq<char> {
    if s.len() > 0 && s[0] == '+' {
        s.drop_first()
    } else {
        s
    }
}

/// The number a text reads as, when it is an optional plus sign followed by at least one
/// decimal digit and its value is at most `max` (as Rust's `str::parse` reads an unsigned
/// integer type whose largest value is `max`).
pub open spec fn parse_unsigned(s: Seq<char>, max: nat) -> Option<nat> {
    let d = unsigned_digits(s);
    if d.len() > 0 && (forall|i: int| 0 <= i < d.len() ==> is_digit(#[trigger] d[i])) && digits_value(d) <= max {
        Some(digits_value(d))
    } else {
        None
    }
}

/// Reads an unsigned number no greater than `max`: an optional plus sign, then decimal digits.
pub fn parse_unsigned_text(s: &str, max: usize) -> (r: Option<usize>)
    ensures
        r matches Some(v) ==> parse_unsigned(s@, max as nat) == Some(v as nat),
        r is None <==> parse_unsigned(s@, max as nat) is None,
{
    let n = s.unicode_len();
    let mut start: usize = 0;
    if n > 0 && s.get_char(0) == '+' {
        start = 1;
    }
    let ghost d = unsigned_digits(s@);
    proof {
        assert(d =~= s@.subrange(start as int, n as int));
    }
    if start == n {
        return None;
    }
    let mut i: usize = start;
    let mut acc: usize = 0;
    let mut big = false;
    proof {
        assert(s@.subrange(start as int, i as int) =~= Seq::<char>::empty());
    }
    while i < n
        invariant
            n == s@.len(),
            start <= i <= n,
            d == unsigned_digits(s@),
            d =~= s@.subrange(start as int, n as int),
            forall|j: int| start <= j < i ==> is_digit(#[trigger] s@[j]),
            !big ==> acc == digits_value(s@.subrange(start as int, i as int)) && acc <= max,
            big ==> digits_value(s@.subrange(start as int, i as int)) > max,
        decreases n - i,
    {
        let c = s.get_char(i);
        if !('0' <= c && c <= '9') {
            proof {
                assert(d[i - start] == c);
                assert(!is_digit(d[i - start]));
            }
            return None;
        }
        let dv: u32 = (c as u32) - ('0' as u32);
        proof {
            assert(s@.subrange(start as int, i + 1).drop_last() =~= s@.subrange(start as int, i as int));
            assert(s@.subrange(start as int, i + 1).last() == c);
        }
        if !big {
            let next: u128 = (acc as u128) * 10 + (dv as u128);
            if next > max as u128 {
                big = true;
            } else {
                acc = next as usize;
            }
        }
        i = i + 1;
    }
    proof {
        assert(s@.subrange(start as int, n as int) =~= d);
    }
    if big {
        None
    } else {
        Some(acc)
    }
}

/// The pieces of `s` between the occurrences of `sep`, in order (one piece when `sep` does
/// not occur, empty pieces kept), as `str::split` gives them.
pub open spec fn split_on(s: Seq<char>, sep: char) -> Seq<Seq<char>>
    decreases s.len(),
{
    if s.len() == 0 {
        seq![Seq::<char>::empty()]
    } else {
        let prev = split_on(s.drop_last(), sep);
        if s.last() == sep {
            prev.push(Seq::<char>::empty())
        } else {
            prev.update(prev.len() - 1, prev.last().push(s.last()))
        }
    }
}

/// Splitting always gives at least one piece.
pub proof fn lemma_split_on_len(s: Seq<char>, sep: char)
    ensures
        split_on(s, sep).len() >= 1,
    decreases s.len(),
{
    if s.len() > 0 {
        lemma_split_on_len(s.drop_last(), sep);
    }
}

/// The texts of a list of strings.
pub open spec fn strings_view(v: Seq<String>) -> Seq<Seq<char>> {
    v.map_values(|s: String| s@)
}

/// Splits `s` at each occurrence of `sep`.
pub fn split_text(s: &str, sep: char) -> (r: Vec<String>)
    ensures
        strings_view(r@) == split_on(s@, sep),
{
    let n = s.unicode_len();
    let mut out: Vec<String> = Vec::new();
    let mut start: usize = 0;
    let mut i: usize = 0;
    proof {
        assert(s@.take(0) =~= Seq::<char>::empty());
        assert(strings_view(out@).push(s@.subrange(0, 0)) =~= split_on(s@.take(0), sep));
    }
    while i < n
        invariant
            n == s@.len(),
            start <= i <= n,
            strings_view(out@).push(s@.subrange(start as int, i as int)) == split_on(s@.take(i as int), sep),
        decreases n - i,
    {
        let c = s.get_char(i);
        proof {
            assert(s@.take(i + 1).drop_last() =~= s@.take(i as int));
            assert(s@.take(i + 1).last() == c);
            lemma_split_on_len(s@.take(i as int), sep);
        }
        if c == sep {
            let ghost sv0 = strings_view(out@);
            let ghost prev = split_on(s@.take(i as int), sep);
            let piece = String::from_str(s.substring_char(start, i));
            proof {
                assert(prev == sv0.push(piece@));
            }
            out.push(piece);
            start = i + 1;
            proof {
                assert(strings_view(out@) =~= sv0.push(piece@));
                assert(s@.subrange(start as int, i + 1) =~= Seq::<char>::empty());
                assert(split_on(s@.take(i + 1), sep) == prev.push(Seq::<char>::empty()));
            }
        } else {
            proof {
                let prev = split_on(s@.take(i as int), sep);
                let sv = strings_view(out@);
                assert(prev == sv.push(s@.subrange(start as int, i as int)));
                assert(prev.last() == s@.subrange(start as int, i as int));
                assert(prev.len() - 1 == sv.len());
                assert(s@.subrange(start as int, i + 1) =~= s@.subrange(start as int, i as int).push(c));
                assert(split_on(s@.take(i + 1), sep) == prev.update(prev.len() - 1, prev.last().push(c)));
                assert(sv.push(s@.subrange(start as int, i + 1)) =~= prev.update(prev.len() - 1, prev.last().push(c)));
            }
        }
        i = i + 1;
    }
    let last = String::from_str(s.substring_char(start, n));
    out.push(last);
    proof {
        assert(s@.take(n as int) =~= s@);
        assert(strings_view(out@) =~= split_on(s@, sep));
    }
    out
}

/// Whether a character is an ASCII letter or digit.
pub open spec fn is_alnum(c: char) -> bool {
    ('a' <= c && c <= 'z') || ('A' <= c && c <= 'Z') || ('0' <= c && c <= '9')
}

/// Whether a text is one or more ASCII letters or digits.
pub open spec fn is_word(s: Seq<char>) -> bool {
    s.len() > 0 && forall|i: int| 0 <= i < s.len() ==> is_alnum(#[trigger] s[i])
}

/// Whether a text is one or more ASCII letters or digits.
pub fn is_word_text(s: &str) -> (r: bool)
    ensures
        r == is_word(s@),
{
    let n = s.unicode_len();
    if n == 0 {
        return false;
    }
    let mut i: usize = 0;
    while i < n
        invariant
            n == s@.len(),
            i <= n,
            forall|j: int| 0 <= j < i ==> is_alnum(#[trigger] s@[j]),
        decreases n - i,
    {
        let c = s.get_char(i);
        if !(('a' <= c && c <= 'z') || ('A' <= c && c <= 'Z') || ('0' <= c && c <= '9')) {
            proof {
                assert(!is_alnum(s@[i as int]));
            }
            return false;
        }
        i = i + 1;
    }
    true
}

} // verus!
