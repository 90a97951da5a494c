use vstd::prelude::*;
use vstd::string::*;

verus! {

/// Strict lexicographic order on character sequences, which is the order of
/// `String` in Rust: UTF-8 preserves the order of code points, so comparing
/// the bytes compares the characters.
pub open spec fn lex_lt(a: Seq<char>, b: Seq<char>) -> bool {
    ||| (a.len() < b.len() && (forall|j: int| 0 <= j < a.len() ==> a[j] == b[j]))
    ||| exists|i: int|
        0 <= i < a.len() && i < b.len() && (forall|j: int| 0 <= j < i ==> a[j] == b[j]) && a[i] < b[i]
}

/// `a < b` on strings.
pub fn str_lt(a: &str, b: &str) -> (r: bool)
    ensures
        r == lex_lt(a@, b@),
{
    let la = a.unicode_len();
    let lb = b.unicode_len();
    let mut i: usize = 0;
    while i < la && i < lb
        invariant
            i <= la,
            i <= lb,
            la == a@.len(),
            lb == b@.len(),
            forall|j: int| 0 <= j < i ==> a@[j] == b@[j],
        decreases la - i,
    {
        let ca = a.get_char(i);
        let cb = b.get_char(i);
        if ca != cb {
            let r = ca < cb;
            proof {
                if !r {
                    assert forall|k: int|
                        !(0 <= k < a@.len() && k < b@.len() && (forall|j: int|
                            0 <= j < k ==> a@[j] == b@[j]) && a@[k] < b@[k]) by {
                        if 0 <= k < a@.len() && k < b@.len() && (forall|j: int|
                            0 <= j < k ==> a@[j] == b@[j]) {
                            if k > i {
                                assert(a@[i as int] == b@[i as int]);
                            }
                        }
                    }
                    assert(!(a@.len() < b@.len() && (forall|j: int|
                        0 <= j < a@.len() ==> a@[j] == b@[j]))) by {
                        if a@.len() < b@.len() {
                            assert(a@[i as int] != b@[i as int]);
                        }
                    }
                }
            }
            return r;
        }
        i += 1;
    }
    proof {
        assert forall|k: int|
            !(0 <= k < a@.len() && k < b@.len() && (forall|j: int| 0 <= j < k ==> a@[j] == b@[j])
                && a@[k] < b@[k]) by {
            if 0 <= k < a@.len() && k < b@.len() {
                assert(a@[k] == b@[k]);
            }
        }
    }
    la < lb
}


/// The position at which `a < b` is decided: the end of `a` when `a` is a
/// proper prefix of `b`, else the first index at which they differ.
spec fn lex_split(a: Seq<char>, b: Seq<char>) -> int {
    if a.len() < b.len() && (forall|j: int| 0 <= j < a.len() ==> a[j] == b[j]) {
        a.len() as int
    } else {
        choose|i: int|
            0 <= i < a.len() && i < b.len() && (forall|j: int| 0 <= j < i ==> a[j] == b[j]) && a[i] < b[i]
    }
}

proof fn lemma_lex_split(a: Seq<char>, b: Seq<char>)
    requires
        lex_lt(a, b),
    ensures
        0 <= lex_split(a, b) <= a.len(),
        lex_split(a, b) < b.len(),
        forall|j: int| 0 <= j < lex_split(a, b) ==> a[j] == b[j],
        lex_split(a, b) == a.len() || a[lex_split(a, b)] < b[lex_split(a, b)],
{
}

/// The first index below `min(a.len(), b.len())` at which `a` and `b`
/// differ, searching from `i`; the minimum itself when there is none.
proof fn lemma_first_mismatch(a: Seq<char>, b: Seq<char>, i: int) -> (k: int)
    requires
        0 <= i <= a.len(),
        i <= b.len(),
        forall|j: int| 0 <= j < i ==> a[j] == b[j],
    ensures
        i <= k <= a.len(),
        k <= b.len(),
        forall|j: int| 0 <= j < k ==> a[j] == b[j],
        k == a.len() || k == b.len() || a[k] != b[k],
    decreases a.len() - i,
{
    if i == a.len() || i == b.len() || a[i] != b[i] {
        i
    } else {
        lemma_first_mismatch(a, b, i + 1)
    }
}

/// No sequence comes before itself.
pub proof fn lemma_lex_irreflexive(a: Seq<char>)
    ensures
        !lex_lt(a, a),
{
}

/// At most one of `a < b` and `b < a` holds.
pub proof fn lemma_lex_asymmetric(a: Seq<char>, b: Seq<char>)
    ensures
        lex_lt(a, b) ==> !lex_lt(b, a),
{
    if lex_lt(a, b) && lex_lt(b, a) {
        lemma_lex_split(a, b);
        lemma_lex_split(b, a);
        let p = lex_split(a, b);
        let q = lex_split(b, a);
        if p < q {
            assert(a[p] == b[p]);
        } else if q < p {
            assert(a[q] == b[q]);
        }
    }
}

/// Two different sequences are ordered one way or the other.
pub proof fn lemma_lex_total(a: Seq<char>, b: Seq<char>)
    ensures
        a == b || lex_lt(a, b) || lex_lt(b, a),
{
    let k = lemma_first_mismatch(a, b, 0);
    if k == a.len() && k == b.len() {
        assert(a =~= b);
    } else if k == a.len() {
        assert(lex_lt(a, b));
    } else if k == b.len() {
        assert(lex_lt(b, a));
    } else if a[k] < b[k] {
        assert(lex_lt(a, b));
    } else {
        assert(b[k] < a[k]);
        assert(lex_lt(b, a));
    }
}

/// The order is transitive.
pub proof fn lemma_lex_transitive(a: Seq<char>, b: Seq<char>, c: Seq<char>)
    requires
        lex_lt(a, b),
        lex_lt(b, c),
    ensures
        lex_lt(a, c),
{
    lemma_lex_split(a, b);
    lemma_lex_split(b, c);
    let p = lex_split(a, b);
    let q = lex_split(b, c);
    if p < q {
        assert(forall|j: int| 0 <= j < p ==> a[j] == c[j]);
        if p < a.len() {
            assert(b[p] == c[p]);
        }
    } else if q < p {
        assert(forall|j: int| 0 <= j < q ==> a[j] == c[j]);
        assert(a[q] == b[q]);
    } else {
        assert(forall|j: int| 0 <= j < p ==> a[j] == c[j]);
    }
}


/// "Not after" is transitive too.
pub proof fn lemma_lex_not_after_transitive(a: Seq<char>, b: Seq<char>, c: Seq<char>)
    requires
        !lex_lt(b, a),
        !lex_lt(c, b),
    ensures
        !lex_lt(c, a),
{
    lemma_lex_total(a, b);
    if lex_lt(c, a) && lex_lt(a, b) {
        lemma_lex_transitive(c, a, b);
    }
}


/// A name comes before every longer name that starts with it, so a
/// document's history entries are listed after it.
pub proof fn lemma_prefix_comes_first(a: Seq<char>, b: Seq<char>)
    requires
        b.len() > 0,
    ensures
        lex_lt(a, a + b),
{
    assert(forall|j: int| 0 <= j < a.len() ==> a[j] == (a + b)[j]);
}

/// The decimal digit for `d`.
pub open spec fn digit_char(d: nat) -> char {
    if d == 0 { '0' }
    else if d == 1 { '1' }
    else if d == 2 { '2' }
    else if d == 3 { '3' }
    else if d == 4 { '4' }
    else if d == 5 { '5' }
    else if d == 6 { '6' }
    else if d == 7 { '7' }
    else if d == 8 { '8' }
    else { '9' }
}

/// The decimal text of `n`, as `Display` writes it: no sign, no leading zero.
pub open spec fn decimal(n: nat) -> Seq<char>
    decreases n,
{
    if n < 10 {
        seq![digit_char(n)]
    } else {
        decimal(n / 10).push(digit_char(n % 10))
    }
}

fn digit_text(d: usize) -> (t: &'static str)
    requires
        d < 10,
    ensures
        t@ == seq![digit_char(d as nat)],
{
    proof {
        reveal_strlit("0");
        reveal_strlit("1");
        reveal_strlit("2");
        reveal_strlit("3");
        reveal_strlit("4");
        reveal_strlit("5");
        reveal_strlit("6");
        reveal_strlit("7");
        reveal_strlit("8");
        reveal_strlit("9");
    }
    let t = if d == 0 { "0" }
    else if d == 1 { "1" }
    else if d == 2 { "2" }
    else if d == 3 { "3" }
    else if d == 4 { "4" }
    else if d == 5 { "5" }
    else if d == 6 { "6" }
    else if d == 7 { "7" }
    else if d == 8 { "8" }
    else { "9" };
    assert(t@ =~= seq![digit_char(d as nat)]);
    t
}

/// Appends the decimal text of `n` to `s`.
pub fn push_decimal(s: &mut String, n: usize)
    ensures
        final(s)@ == old(s)@ + decimal(n as nat),
    decreases n,
{
    if n >= 10 {
        push_decimal(s, n / 10);
    }
    s.append(digit_text(n % 10));
    assert(s@ =~= old(s)@ + decimal(n as nat));
}

/// The index of the first `.` in `s`, or its length when it has none.
pub open spec fn first_dot(s: Seq<char>) -> int {
    if exists|i: int| 0 <= i < s.len() && s[i] == '.' {
        choose|i: int| 0 <= i < s.len() && s[i] == '.' && forall|j: int| 0 <= j < i ==> s[j] != '.'
    } else {
        s.len() as int
    }
}

/// What comes before the first `.` of `s`: the first item of
/// `s.split('.')`.
pub open spec fn before_first_dot(s: Seq<char>) -> Seq<char> {
    s.take(first_dot(s))
}

/// What comes after the first `.` of `s`, when it has one.
pub open spec fn after_first_dot(s: Seq<char>) -> Seq<char> {
    s.skip(first_dot(s) + 1)
}

/// Whether `s` holds a `.`.
pub open spec fn has_dot(s: Seq<char>) -> bool {
    exists|i: int| 0 <= i < s.len() && s[i] == '.'
}

/// The first `.` of a text is at the index where a scan stops.
pub proof fn lemma_first_dot_at(s: Seq<char>, i: int)
    requires
        0 <= i <= s.len(),
        i < s.len() ==> s[i] == '.',
        forall|j: int| 0 <= j < i ==> s[j] != '.',
    ensures
        first_dot(s) == i,
        has_dot(s) <==> i < s.len(),
{
    if i < s.len() {
        let k = choose|k: int| 0 <= k < s.len() && s[k] == '.' && forall|j: int| 0 <= j < k ==> s[j] != '.';
        assert(s[k] == '.');
        if k < i {
            assert(s[k] != '.');
        } else if k > i {
            assert(s[i] != '.');
        }
    }
}

/// The index of the first `.` in `s`, or its length in characters.
pub fn find_first_dot(s: &str) -> (i: usize)
    ensures
        i == first_dot(s@),
        has_dot(s@) <==> i < s@.len(),
{
    let n = s.unicode_len();
    let mut i: usize = 0;
    while i < n
        invariant
            i <= n,
            n == s@.len(),
            forall|j: int| 0 <= j < i ==> s@[j] != '.',
        ensures
            i <= n,
            i < n ==> s@[i as int] == '.',
            forall|j: int| 0 <= j < i ==> s@[j] != '.',
        decreases n - i,
    {
        if s.get_char(i) == '.' {
            break;
        }
        i += 1;
    }
    proof {
        lemma_first_dot_at(s@, i as int);
    }
    i
}

/// `before_first_dot` on text.
pub fn text_before_first_dot(s: &str) -> (r: String)
    ensures
        r@ == before_first_dot(s@),
{
    let i = find_first_dot(s);
    let r = String::from_str(s.substring_char(0, i));
    assert(r@ =~= before_first_dot(s@));
    r
}

/// `after_first_dot` on text that has a `.`.
pub fn text_after_first_dot(s: &str) -> (r: String)
    requires
        has_dot(s@),
    ensures
        r@ == after_first_dot(s@),
{
    let i = find_first_dot(s);
    let n = s.unicode_len();
    let r = String::from_str(s.substring_char(i + 1, n));
    assert(r@ =~= after_first_dot(s@));
    r
}

/// A decimal digit.
pub open spec fn is_digit(c: char) -> bool {
    '0' <= c && c <= '9'
}

/// The value of a decimal digit.
pub open spec fn digit_value(c: char) -> nat {
    if c == '0' { 0 }
    else if c == '1' { 1 }
    else if c == '2' { 2 }
    else if c == '3' { 3 }
    else if c == '4' { 4 }
    else if c == '5' { 5 }
    else if c == '6' { 6 }
    else if c == '7' { 7 }
    else if c == '8' { 8 }
    else { 9 }
}

/// The number that a text of decimal digits writes.
pub open spec fn digits_value(d: Seq<char>) -> nat
    decreases d.len(),
{
    if d.len() == 0 {
        0
    } else {
        digits_value(d.drop_last()) * 10 + digit_value(d.last())
    }
}

/// The digits of an unsigned number in text: what follows a leading `+`.
pub open spec fn unsigned_digits(s: Seq<char>) -> Seq<char> {
    if s.len() > 0 && s[0] == '+' {
        s.drop_first()
    } else {
        s
    }
}

/// What `s.parse::<usize>().ok()` gives: the number when `s` is an optional
/// `+` and at least one decimal digit and the number fits, else nothing.
pub open spec fn parse_usize(s: Seq<char>) -> Option<usize> {
    let d = unsigned_digits(s);
    if d.len() > 0 && (forall|i: int| 0 <= i < d.len() ==> is_digit(d[i])) && digits_value(d)
        <= usize::MAX {
        Some(digits_value(d) as usize)
    } else {
        None
    }
}

fn digit_of(c: char) -> (r: Option<usize>)
    ensures
        match r {
            Some(v) => is_digit(c) && v == digit_value(c),
            None => !is_digit(c),
        },
{
    if c == '0' { Some(0) }
    else if c == '1' { Some(1) }
    else if c == '2' { Some(2) }
    else if c == '3' { Some(3) }
    else if c == '4' { Some(4) }
    else if c == '5' { Some(5) }
    else if c == '6' { Some(6) }
    else if c == '7' { Some(7) }
    else if c == '8' { Some(8) }
    else if c == '9' { Some(9) }
    else { None }
}

/// `s.parse::<usize>().ok()`.
pub fn parse_decimal(s: &str) -> (r: Option<usize>)
    ensures
        r == parse_usize(s@),
{
    let n = s.unicode_len();
    let mut start: usize = 0;
    if n > 0 && s.get_char(0) == '+' {
        start = 1;
    }
    let ghost d = unsigned_digits(s@);
    assert(d =~= s@.subrange(start as int, n as int));
    if start == n {
        return None;
    }
    let mut value: usize = 0;
    let mut overflow = false;
    let mut i: usize = start;
    while i < n
        invariant
            start <= i <= n,
            n == s@.len(),
            d == s@.subrange(start as int, n as int),
            d == unsigned_digits(s@),
            forall|j: int| start <= j < i ==> is_digit(s@[j]),
            !overflow ==> value == digits_value(s@.subrange(start as int, i as int)),
            overflow ==> digits_value(s@.subrange(start as int, i as int)) > usize::MAX,
        decreases n - i,
    {
        let c = s.get_char(i);
        let dv = match digit_of(c) {
            Some(v) => v,
            None => {
                assert(!is_digit(d[i - start]));
                return None;
            },
        };
        let ghost prefix = s@.subrange(start as int, i as int);
        let ghost next = s@.subrange(start as int, i + 1);
        assert(next.drop_last() =~= prefix);
        assert(digits_value(next) == digits_value(prefix) * 10 + digit_value(c));
        if !overflow {
            match value.checked_mul(10) {
                Some(v10) => match v10.checked_add(dv) {
                    Some(v) => {
                        value = v;
                    },
                    None => {
                        overflow = true;
                    },
                },
                None => {
                    overflow = true;
                },
            }
        }
        i += 1;
    }
    assert(s@.subrange(start as int, n as int) == d);
    if overflow {
        None
    } else {
        Some(value)
    }
}

/// Parsing the decimal text of a number gives the number back.
pub proof fn lemma_parse_decimal(n: nat)
    requires
        n <= usize::MAX,
    ensures
        parse_usize(decimal(n)) == Some(n as usize),
        !has_dot(decimal(n)),
{
    lemma_decimal_digits(n);
}

/// The decimal text of `n` is a non-empty run of digits that writes `n`.
pub proof fn lemma_decimal_digits(n: nat)
    ensures
        decimal(n).len() > 0,
        forall|i: int| 0 <= i < decimal(n).len() ==> is_digit(#[trigger] decimal(n)[i]),
        decimal(n)[0] != '+',
        digits_value(decimal(n)) == n,
        !has_dot(decimal(n)),
    decreases n,
{
    assert(digit_value(digit_char(n % 10)) == n % 10);
    if n >= 10 {
        lemma_decimal_digits(n / 10);
        assert(decimal(n).drop_last() =~= decimal(n / 10));
        assert(decimal(n).last() == digit_char(n % 10));
        assert((n / 10) * 10 + n % 10 == n);
        assert(digits_value(decimal(n)) == digits_value(decimal(n).drop_last()) * 10 + digit_value(
            decimal(n).last(),
        ));
        assert(forall|i: int| 0 <= i < decimal(n / 10).len() ==> decimal(n)[i] == decimal(n / 10)[i]);
    } else {
        assert(decimal(n).drop_last() =~= Seq::<char>::empty());
        assert(digits_value(decimal(n)) == digits_value(decimal(n).drop_last()) * 10 + digit_value(
            decimal(n).last(),
        ));
    }
}

} // verus!
