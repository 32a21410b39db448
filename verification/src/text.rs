use vstd::prelude::*;

verus! {

/// `String::push` appends one character.
pub assume_specification[ String::push ](s: &mut String, ch: char)
    ensures
        final(s)@ == old(s)@.push(ch),
;

/// The characters of `s`, in order.
pub fn chars_of(s: &str) -> (v: Vec<char>)
    ensures
        v@ == s@,
{
    let n = s.unicode_len();
    let mut v: Vec<char> = Vec::new();
    let mut i: usize = 0;
    while i < n
        invariant
            i <= n,
            n == s@.len(),
            v@ == s@.take(i as int),
        decreases n - i,
    {
        v.push(s.get_char(i));
        assert(s@.take(i + 1) == s@.take(i as int).push(s@[i as int]));
        i += 1;
    }
    assert(s@.take(n as int) == s@);
    v
}

/// Whether `a` and `b` hold the same characters.
pub fn str_eq(a: &str, b: &str) -> (eq: bool)
    ensures
        eq == (a@ == b@),
{
    let n = a.unicode_len();
    if n != b.unicode_len() {
        return false;
    }
    let mut i: usize = 0;
    while i < n
        invariant
            i <= n,
            n == a@.len(),
            n == b@.len(),
            forall|j: int| 0 <= j < i ==> a@[j] == b@[j],
        decreases n - i,
    {
        if a.get_char(i) != b.get_char(i) {
            return false;
        }
        i += 1;
    }
    assert(a@ =~= b@);
    true
}

/// Whether the characters in `v` equal those of `s`.
pub fn chars_eq(v: &Vec<char>, s: &str) -> (eq: bool)
    ensures
        eq == (v@ == s@),
{
    let n = s.unicode_len();
    if n != v.len() {
        return false;
    }
    let mut i: usize = 0;
    while i < n
        invariant
            i <= n,
            n == s@.len(),
            n == v@.len(),
            forall|j: int| 0 <= j < i ==> v@[j] == s@[j],
        decreases n - i,
    {
        if v[i] != s.get_char(i) {
            return false;
        }
        i += 1;
    }
    assert(v@ =~= s@);
    true
}

/// A string holding the characters of `v`.
pub fn string_from_chars(v: &Vec<char>) -> (s: String)
    ensures
        s@ == v@,
{
    let mut s = String::new();
    let mut i: usize = 0;
    while i < v.len()
        invariant
            i <= v.len(),
            s@ == v@.take(i as int),
        decreases v.len() - i,
    {
        s.push(v[i]);
        assert(v@.take(i + 1) == v@.take(i as int).push(v@[i as int]));
        i += 1;
    }
    assert(v@.take(v@.len() as int) == v@);
    s
}

/// The ASCII digit for `d`.
pub open spec fn digit_char(d: nat) -> char {
    (('0' as u8) + d) as char
}

/// The decimal notation of `n`, without leading zeros.
pub open spec fn decimal(n: nat) -> Seq<char>
    decreases n,
{
    if n < 10 {
        seq![digit_char(n)]
    } else {
        decimal(n / 10).push(digit_char(n % 10))
    }
}

/// The character of a decimal digit.
pub fn digit_to_char(d: u32) -> (c: char)
    requires
        d < 10,
    ensures
        c == digit_char(d as nat),
{
    if d == 0 {
        '0'
    } else if d == 1 {
        '1'
    } else if d == 2 {
        '2'
    } else if d == 3 {
        '3'
    } else if d == 4 {
        '4'
    } else if d == 5 {
        '5'
    } else if d == 6 {
        '6'
    } else if d == 7 {
        '7'
    } else if d == 8 {
        '8'
    } else {
        '9'
    }
}

/// Appends the decimal notation of `n` to `s`.
pub fn push_decimal(s: &mut String, n: u64)
    ensures
        final(s)@ == old(s)@ + decimal(n as nat),
    decreases n,
{
    if n >= 10 {
        push_decimal(s, n / 10);
    }
    s.push(digit_to_char((n % 10) as u32));
    proof {
        if n >= 10 {
            assert(old(s)@ + decimal(n as nat) == old(s)@ + decimal((n / 10) as nat) + seq![digit_char((n % 10) as nat)]);
        } else {
            assert(decimal(n as nat) == seq![digit_char(n as nat)]);
        }
    }
}

/// The decimal notation of `n`.
pub fn u64_to_string(n: u64) -> (s: String)
    ensures
        s@ == decimal(n as nat),
{
    let mut s = String::new();
    push_decimal(&mut s, n);
    assert(Seq::<char>::empty() + decimal(n as nat) == decimal(n as nat));
    s
}

/// Appends the characters of `t` to `s`.
pub fn push_str(s: &mut String, t: &str)
    ensures
        final(s)@ == old(s)@ + t@,
{
    s.append(t);
}

/// The characters Unicode gives the White_Space property, which
/// `char::is_whitespace` tests.
pub open spec fn is_white_space(c: char) -> bool {
    let u = c as u32;
    ||| 0x09 <= u <= 0x0D
    ||| u == 0x20
    ||| u == 0x85
    ||| u == 0xA0
    ||| u == 0x1680
    ||| 0x2000 <= u <= 0x200A
    ||| u == 0x2028
    ||| u == 0x2029
    ||| u == 0x202F
    ||| u == 0x205F
    ||| u == 0x3000
}

/// Whether `c` is white space.
pub fn is_white_space_char(c: char) -> (ws: bool)
    ensures
        ws == is_white_space(c),
{
    let u = c as u32;
    (0x09 <= u && u <= 0x0D) || u == 0x20 || u == 0x85 || u == 0xA0 || u == 0x1680 || (0x2000 <= u
        && u <= 0x200A) || u == 0x2028 || u == 0x2029 || u == 0x202F || u == 0x205F || u == 0x3000
}

/// One character of a scan for white-space separated fields: the finished
/// fields and the field being read.
pub open spec fn ws_step(st: (Seq<Seq<char>>, Seq<char>), c: char) -> (Seq<Seq<char>>, Seq<char>) {
    if is_white_space(c) {
        if st.1.len() > 0 {
            (st.0.push(st.1), Seq::empty())
        } else {
            (st.0, Seq::empty())
        }
    } else {
        (st.0, st.1.push(c))
    }
}

/// The scan for white-space separated fields over `s`, from state `st`.
pub open spec fn ws_scan(st: (Seq<Seq<char>>, Seq<char>), s: Seq<char>) -> (Seq<Seq<char>>, Seq<char>)
    decreases s.len(),
{
    if s.len() == 0 {
        st
    } else {
        ws_step(ws_scan(st, s.drop_last()), s.last())
    }
}

/// The non-empty runs of non-white-space characters of `s`, in order (what
/// `str::split_whitespace` yields).
pub open spec fn ws_fields(s: Seq<char>) -> Seq<Seq<char>> {
    let st = ws_scan((Seq::empty(), Seq::empty()), s);
    if st.1.len() > 0 {
        st.0.push(st.1)
    } else {
        st.0
    }
}

/// One character of a scan that splits at `sep`: the finished parts and the
/// part being read.
pub open spec fn split_step(st: (Seq<Seq<char>>, Seq<char>), c: char, sep: char) -> (Seq<Seq<char>>, Seq<char>) {
    if c == sep {
        (st.0.push(st.1), Seq::empty())
    } else {
        (st.0, st.1.push(c))
    }
}

/// The scan that splits `s` at `sep`, from state `st`.
pub open spec fn split_scan(st: (Seq<Seq<char>>, Seq<char>), s: Seq<char>, sep: char) -> (Seq<Seq<char>>, Seq<char>)
    decreases s.len(),
{
    if s.len() == 0 {
        st
    } else {
        split_step(split_scan(st, s.drop_last(), sep), s.last(), sep)
    }
}

/// The parts of `s` between occurrences of `sep`, empty ones included (what
/// `str::split` yields for a character).
pub open spec fn split_on(s: Seq<char>, sep: char) -> Seq<Seq<char>> {
    let st = split_scan((Seq::empty(), Seq::empty()), s, sep);
    st.0.push(st.1)
}

/// The characters held by each vector of `v`.
pub open spec fn views(v: Seq<Vec<char>>) -> Seq<Seq<char>> {
    v.map_values(|x: Vec<char>| x@)
}

/// The characters held by the vectors after a push.
pub proof fn lemma_push_views(v: Seq<Vec<char>>, x: Vec<char>)
    ensures
        views(v.push(x)) == views(v).push(x@),
{
    assert(views(v.push(x)) =~= views(v).push(x@));
}

/// The fields of `s` separated by white space.
pub fn split_whitespace(s: &Vec<char>) -> (fields: Vec<Vec<char>>)
    ensures
        views(fields@) == ws_fields(s@),
{
    let mut fields: Vec<Vec<char>> = Vec::new();
    let mut cur: Vec<char> = Vec::new();
    let mut i: usize = 0;
    while i < s.len()
        invariant
            i <= s.len(),
            (views(fields@), cur@) == ws_scan((Seq::empty(), Seq::empty()), s@.take(i as int)),
        decreases s.len() - i,
    {
        let c = s[i];
        assert(s@.take(i + 1).drop_last() == s@.take(i as int));
        if is_white_space_char(c) {
            if cur.len() > 0 {
                proof {
                    lemma_push_views(fields@, cur);
                }
                fields.push(cur);
                cur = Vec::new();
            }
        } else {
            cur.push(c);
        }
        i += 1;
    }
    assert(s@.take(s@.len() as int) == s@);
    if cur.len() > 0 {
        proof {
            lemma_push_views(fields@, cur);
        }
        fields.push(cur);
    }
    fields
}

/// The parts of `s` between occurrences of `sep`.
pub fn split_chars(s: &Vec<char>, sep: char) -> (parts: Vec<Vec<char>>)
    ensures
        views(parts@) == split_on(s@, sep),
        parts.len() == split_on(s@, sep).len(),
{
    let mut parts: Vec<Vec<char>> = Vec::new();
    let mut cur: Vec<char> = Vec::new();
    let mut i: usize = 0;
    while i < s.len()
        invariant
            i <= s.len(),
            (views(parts@), cur@) == split_scan((Seq::empty(), Seq::empty()), s@.take(i as int), sep),
        decreases s.len() - i,
    {
        let c = s[i];
        assert(s@.take(i + 1).drop_last() == s@.take(i as int));
        if c == sep {
            proof {
                lemma_push_views(parts@, cur);
            }
            parts.push(cur);
            cur = Vec::new();
        } else {
            cur.push(c);
        }
        i += 1;
    }
    assert(s@.take(s@.len() as int) == s@);
    proof {
        lemma_push_views(parts@, cur);
    }
    parts.push(cur);
    parts
}

/// An ASCII decimal digit.
pub open spec fn is_digit(c: char) -> bool {
    '0' <= c <= '9'
}

/// The value of a decimal digit.
pub open spec fn digit_value(c: char) -> nat {
    (c as u32 - '0' as u32) as nat
}

/// The value of a run of decimal digits, most significant first.
pub open spec fn digits_value(s: Seq<char>) -> nat
    decreases s.len(),
{
    if s.len() == 0 {
        0
    } else {
        digits_value(s.drop_last()) * 10 + digit_value(s.last())
    }
}

/// Every character of `s` is a digit.
pub open spec fn all_digits(s: Seq<char>) -> bool {
    forall|i: int| 0 <= i < s.len() ==> is_digit(#[trigger] s[i])
}

/// `s` without a leading `+`.
pub open spec fn unsigned_part(s: Seq<char>) -> Seq<char> {
    if s.len() > 0 && s[0] == '+' {
        s.drop_first()
    } else {
        s
    }
}

/// What `str::parse::<u32>` gives: an optional `+`, then at least one digit,
/// and only digits, for a value that fits in a `u32`.
pub open spec fn parse_u32_spec(s: Seq<char>) -> Option<u32> {
    let d = unsigned_part(s);
    if d.len() > 0 && all_digits(d) && digits_value(d) <= u32::MAX {
        Some(digits_value(d) as u32)
    } else {
        None
    }
}

/// The value of a run of digits grows with each digit.
pub proof fn lemma_digits_value_grows(s: Seq<char>, k: int)
    requires
        0 <= k <= s.len(),
        forall|i: int| 0 <= i < s.len() ==> is_digit(#[trigger] s[i]),
    ensures
        digits_value(s.take(k)) <= digits_value(s),
    decreases s.len() - k,
{
    if k < s.len() {
        lemma_digits_value_grows(s, k + 1);
        assert(s.take(k + 1).drop_last() == s.take(k));
    } else {
        assert(s.take(k) == s);
    }
}

/// Reads a number the way `str::parse::<u32>` does.
pub fn parse_u32(s: &Vec<char>) -> (n: Option<u32>)
    ensures
        n == parse_u32_spec(s@),
{
    let start: usize = if s.len() > 0 && s[0] == '+' {
        1
    } else {
        0
    };
    let ghost d = unsigned_part(s@);
    assert(d == s@.subrange(start as int, s@.len() as int));
    if start >= s.len() {
        return None;
    }
    let mut value: u64 = 0;
    let mut i: usize = start;
    while i < s.len()
        invariant
            start <= i <= s.len(),
            d == s@.subrange(start as int, s@.len() as int),
            d == unsigned_part(s@),
            d.len() > 0,
            value == digits_value(d.take(i - start)),
            value <= u32::MAX,
            forall|k: int| 0 <= k < i - start ==> is_digit(#[trigger] d[k]),
        decreases s.len() - i,
    {
        let c = s[i];
        assert(d[i - start] == c);
        if c < '0' || c > '9' {
            assert(!is_digit(d[i - start]));
            assert(!all_digits(d));
            return None;
        }
        assert(d.take(i - start + 1).drop_last() == d.take(i - start));
        assert(d.take(i - start + 1).last() == c);
        value = value * 10 + (c as u64 - '0' as u64);
        i += 1;
        assert(value == digits_value(d.take(i - start)));
        if value > 0xFFFF_FFFF {
            proof {
                if all_digits(d) {
                    lemma_digits_value_grows(d, i - start);
                    assert(digits_value(d) > u32::MAX);
                }
            }
            return None;
        }
    }
    assert(d.take(d.len() as int) == d);
    Some(value as u32)
}

/// A decimal notation has no sign and only digits, and its value is the
/// number written.
pub proof fn lemma_decimal_digits(n: nat)
    ensures
        decimal(n).len() > 0,
        decimal(n)[0] != '+',
        forall|i: int| 0 <= i < decimal(n).len() ==> is_digit(#[trigger] decimal(n)[i]),
        digits_value(decimal(n)) == n,
    decreases n,
{
    assert(digit_char(n % 10) as u32 == 48 + n % 10);
    assert(digit_value(digit_char(n % 10)) == n % 10);
    assert(digit_char(n % 10) != '+');
    if n >= 10 {
        lemma_decimal_digits(n / 10);
        assert(decimal(n).drop_last() == decimal(n / 10));
        assert(decimal(n).last() == digit_char(n % 10));
        assert(digits_value(decimal(n)) == digits_value(decimal(n / 10)) * 10 + digit_value(digit_char(n % 10)));
        assert(digits_value(decimal(n / 10)) * 10 + n % 10 == n);
    } else {
        assert(decimal(n).drop_last() =~= Seq::<char>::empty());
        assert(decimal(n).last() == digit_char(n));
        assert(digits_value(Seq::<char>::empty()) == 0);
        assert(digits_value(decimal(n)) == digits_value(Seq::<char>::empty()) * 10 + digit_value(digit_char(n)));
    }
}

/// Reading back the decimal notation of a `u32` gives the number.
pub proof fn lemma_parse_decimal(n: u32)
    ensures
        parse_u32_spec(decimal(n as nat)) == Some(n),
{
    lemma_decimal_digits(n as nat);
}

/// The words of `s` joined with `sep` between each two.
pub open spec fn join_with(s: Seq<Seq<char>>, sep: char) -> Seq<char>
    decreases s.len(),
{
    if s.len() <= 1 {
        if s.len() == 1 {
            s[0]
        } else {
            Seq::empty()
        }
    } else {
        join_with(s.drop_last(), sep) + seq![sep] + s.last()
    }
}

/// A scan for white-space separated fields over two pieces in turn.
pub proof fn lemma_ws_scan_concat(st: (Seq<Seq<char>>, Seq<char>), a: Seq<char>, b: Seq<char>)
    ensures
        ws_scan(st, a + b) == ws_scan(ws_scan(st, a), b),
    decreases b.len(),
{
    if b.len() == 0 {
        assert(a + b == a);
    } else {
        assert((a + b).drop_last() == a + b.drop_last());
        lemma_ws_scan_concat(st, a, b.drop_last());
    }
}

/// Scanning a word without white space adds it to the field being read.
pub proof fn lemma_ws_scan_word(st: (Seq<Seq<char>>, Seq<char>), w: Seq<char>)
    requires
        forall|i: int| 0 <= i < w.len() ==> !is_white_space(#[trigger] w[i]),
    ensures
        ws_scan(st, w) == (st.0, st.1 + w),
    decreases w.len(),
{
    if w.len() == 0 {
        assert(st.1 + w == st.1);
    } else {
        lemma_ws_scan_word(st, w.drop_last());
        assert(st.1 + w.drop_last() + seq![w.last()] == st.1 + w);
    }
}

/// Words without white space, none empty, joined by single spaces, split back
/// into the same words.
pub proof fn lemma_ws_fields_join(s: Seq<Seq<char>>)
    requires
        s.len() > 0,
        forall|k: int| 0 <= k < s.len() ==> (#[trigger] s[k]).len() > 0,
        forall|k: int, i: int| 0 <= k < s.len() && 0 <= i < s[k].len() ==> !is_white_space(#[trigger] s[k][i]),
    ensures
        ws_scan((Seq::empty(), Seq::empty()), join_with(s, ' ')) == (s.drop_last(), s.last()),
        ws_fields(join_with(s, ' ')) == s,
    decreases s.len(),
{
    let init = (Seq::<Seq<char>>::empty(), Seq::<char>::empty());
    if s.len() == 1 {
        lemma_ws_scan_word(init, s[0]);
        assert(Seq::<char>::empty() + s[0] == s[0]);
        assert(s.drop_last() =~= Seq::<Seq<char>>::empty());
        assert(seq![s[0]] =~= s);
    } else {
        let t = s.drop_last();
        assert forall|k: int, i: int| 0 <= k < t.len() && 0 <= i < t[k].len() implies !is_white_space(#[trigger] t[k][i]) by {
            assert(t[k] == s[k]);
        }
        lemma_ws_fields_join(t);
        let mid = ws_scan(init, join_with(t, ' '));
        lemma_ws_scan_concat(init, join_with(t, ' ') + seq![' '], s.last());
        lemma_ws_scan_concat(init, join_with(t, ' '), seq![' ']);
        assert(seq![' '].drop_last() =~= Seq::<char>::empty());
        assert(ws_scan(mid, seq![' '].drop_last()) == mid);
        assert(t.last() == s[s.len() - 2]);
        assert(is_white_space(' '));
        assert(ws_scan(mid, seq![' ']) == (t.drop_last().push(t.last()), Seq::<char>::empty()));
        assert(t.drop_last().push(t.last()) == t);
        assert forall|i: int| 0 <= i < s.last().len() implies !is_white_space(#[trigger] s.last()[i]) by {
            assert(s.last() == s[s.len() - 1]);
        }
        lemma_ws_scan_word((t, Seq::<char>::empty()), s.last());
        assert(Seq::<char>::empty() + s.last() == s.last());
        assert(t.push(s.last()) == s);
    }
}

/// A split scan over two pieces in turn.
pub proof fn lemma_split_scan_concat(st: (Seq<Seq<char>>, Seq<char>), a: Seq<char>, b: Seq<char>, sep: char)
    ensures
        split_scan(st, a + b, sep) == split_scan(split_scan(st, a, sep), b, sep),
    decreases b.len(),
{
    if b.len() == 0 {
        assert(a + b == a);
    } else {
        assert((a + b).drop_last() == a + b.drop_last());
        lemma_split_scan_concat(st, a, b.drop_last(), sep);
    }
}

/// A split scan over a word without the separator adds it to the part being
/// read.
pub proof fn lemma_split_scan_word(st: (Seq<Seq<char>>, Seq<char>), w: Seq<char>, sep: char)
    requires
        forall|i: int| 0 <= i < w.len() ==> #[trigger] w[i] != sep,
    ensures
        split_scan(st, w, sep) == (st.0, st.1 + w),
    decreases w.len(),
{
    if w.len() == 0 {
        assert(st.1 + w == st.1);
    } else {
        lemma_split_scan_word(st, w.drop_last(), sep);
        assert(st.1 + w.drop_last() + seq![w.last()] == st.1 + w);
    }
}

/// Words without the separator, joined by it, split back into the same words.
pub proof fn lemma_split_join(s: Seq<Seq<char>>, sep: char)
    requires
        s.len() > 0,
        forall|k: int, i: int| 0 <= k < s.len() && 0 <= i < s[k].len() ==> #[trigger] s[k][i] != sep,
    ensures
        split_scan((Seq::empty(), Seq::empty()), join_with(s, sep), sep) == (s.drop_last(), s.last()),
        split_on(join_with(s, sep), sep) == s,
    decreases s.len(),
{
    let init = (Seq::<Seq<char>>::empty(), Seq::<char>::empty());
    if s.len() == 1 {
        lemma_split_scan_word(init, s[0], sep);
        assert(Seq::<char>::empty() + s[0] == s[0]);
        assert(s.drop_last() =~= Seq::<Seq<char>>::empty());
        assert(seq![s[0]] =~= s);
    } else {
        let t = s.drop_last();
        assert forall|k: int, i: int| 0 <= k < t.len() && 0 <= i < t[k].len() implies #[trigger] t[k][i] != sep by {
            assert(t[k] == s[k]);
        }
        lemma_split_join(t, sep);
        let mid = split_scan(init, join_with(t, sep), sep);
        lemma_split_scan_concat(init, join_with(t, sep) + seq![sep], s.last(), sep);
        lemma_split_scan_concat(init, join_with(t, sep), seq![sep], sep);
        assert(seq![sep].drop_last() =~= Seq::<char>::empty());
        assert(split_scan(mid, seq![sep].drop_last(), sep) == mid);
        assert(split_scan(mid, seq![sep], sep) == (t.drop_last().push(t.last()), Seq::<char>::empty()));
        assert(t.drop_last().push(t.last()) == t);
        assert forall|i: int| 0 <= i < s.last().len() implies #[trigger] s.last()[i] != sep by {
            assert(s.last() == s[s.len() - 1]);
        }
        lemma_split_scan_word((t, Seq::<char>::empty()), s.last(), sep);
        assert(Seq::<char>::empty() + s.last() == s.last());
        assert(t.push(s.last()) == s);
    }
}

/// Every character of a join meets a property that the separator and every
/// character of the words meet.
pub proof fn lemma_join_chars(s: Seq<Seq<char>>, sep: char, pred: spec_fn(char) -> bool)
    requires
        pred(sep),
        forall|k: int, i: int| 0 <= k < s.len() && 0 <= i < s[k].len() ==> pred(#[trigger] s[k][i]),
    ensures
        forall|i: int| 0 <= i < join_with(s, sep).len() ==> pred(#[trigger] join_with(s, sep)[i]),
    decreases s.len(),
{
    if s.len() == 1 {
        assert forall|i: int| 0 <= i < join_with(s, sep).len() implies pred(#[trigger] join_with(s, sep)[i]) by {
            assert(join_with(s, sep)[i] == s[0][i]);
        }
    } else if s.len() > 1 {
        let t = s.drop_last();
        assert forall|k: int, i: int| 0 <= k < t.len() && 0 <= i < t[k].len() implies pred(#[trigger] t[k][i]) by {
            assert(t[k] == s[k]);
        }
        lemma_join_chars(t, sep, pred);
        let a = join_with(t, sep);
        let whole = a + seq![sep] + s.last();
        assert forall|i: int| 0 <= i < whole.len() implies pred(#[trigger] whole[i]) by {
            if i < a.len() {
            } else if i == a.len() {
            } else {
                assert(whole[i] == s[s.len() - 1][i - a.len() - 1]);
            }
        }
    }
}

/// `s` without its leading white space.
pub open spec fn trim_start(s: Seq<char>) -> Seq<char>
    decreases s.len(),
{
    if s.len() > 0 && is_white_space(s[0]) {
        trim_start(s.drop_first())
    } else {
        s
    }
}

/// `s` without its trailing white space.
pub open spec fn trim_end(s: Seq<char>) -> Seq<char>
    decreases s.len(),
{
    if s.len() > 0 && is_white_space(s.last()) {
        trim_end(s.drop_last())
    } else {
        s
    }
}

/// `s` without leading and trailing white space (what `str::trim` gives).
pub open spec fn trim(s: Seq<char>) -> Seq<char> {
    trim_end(trim_start(s))
}

/// The number of bytes UTF-8 takes for `c`.
pub open spec fn utf8_len(c: char) -> nat {
    if (c as u32) < 0x80 {
        1
    } else if (c as u32) < 0x800 {
        2
    } else if (c as u32) < 0x10000 {
        3
    } else {
        4
    }
}

/// The number of bytes UTF-8 takes for `s` (what `str::len` gives).
pub open spec fn byte_len(s: Seq<char>) -> nat
    decreases s.len(),
{
    if s.len() == 0 {
        0
    } else {
        byte_len(s.drop_last()) + utf8_len(s.last())
    }
}

/// The bytes of a sequence number at least its characters.
pub proof fn lemma_byte_len_bounds(s: Seq<char>)
    ensures
        byte_len(s) >= s.len(),
        s.len() > 0 ==> byte_len(s) >= byte_len(s.drop_last()) + 1,
    decreases s.len(),
{
    if s.len() > 0 {
        lemma_byte_len_bounds(s.drop_last());
    }
}

/// The number of bytes UTF-8 takes for `c`.
pub fn utf8_len_of(c: char) -> (n: usize)
    ensures
        n == utf8_len(c),
{
    let u = c as u32;
    if u < 0x80 {
        1
    } else if u < 0x800 {
        2
    } else if u < 0x10000 {
        3
    } else {
        4
    }
}

/// The characters of `s` without leading and trailing white space.
pub fn trim_chars(s: &Vec<char>) -> (t: Vec<char>)
    ensures
        t@ == trim(s@),
{
    let mut start: usize = 0;
    assert(s@.skip(0) == s@);
    while start < s.len() && is_white_space_char(s[start])
        invariant
            start <= s.len(),
            trim_start(s@) == trim_start(s@.skip(start as int)),
        decreases s.len() - start,
    {
        assert(s@.skip(start as int).drop_first() == s@.skip(start + 1));
        start += 1;
    }
    let mut end: usize = s.len();
    let ghost head = s@.skip(start as int);
    assert(trim_start(head) == head);
    while end > start && is_white_space_char(s[end - 1])
        invariant
            start <= end <= s.len(),
            head == s@.skip(start as int),
            trim_end(head) == trim_end(s@.subrange(start as int, end as int)),
        decreases end - start,
    {
        assert(s@.subrange(start as int, end as int).drop_last() == s@.subrange(start as int, end - 1));
        end -= 1;
    }
    let mut t: Vec<char> = Vec::new();
    let mut k: usize = start;
    while k < end
        invariant
            start <= k <= end,
            end <= s.len(),
            t@ == s@.subrange(start as int, k as int),
        decreases end - k,
    {
        t.push(s[k]);
        assert(s@.subrange(start as int, k + 1) == s@.subrange(start as int, k as int).push(s@[k as int]));
        k += 1;
    }
    t
}

/// The decimal notation of an integer, with `-` before a negative one.
pub open spec fn signed_decimal(n: int) -> Seq<char> {
    if n < 0 {
        seq!['-'] + decimal((-n) as nat)
    } else {
        decimal(n as nat)
    }
}

/// Appends the decimal notation of `n` to `s`.
pub fn push_signed_decimal(s: &mut String, n: i64)
    ensures
        final(s)@ == old(s)@ + signed_decimal(n as int),
{
    if n < 0 {
        s.push('-');
        let m: u64 = if n == i64::MIN {
            0x8000_0000_0000_0000u64
        } else {
            (-n) as u64
        };
        push_decimal(s, m);
        assert(old(s)@ + seq!['-'] + decimal(m as nat) == old(s)@ + signed_decimal(n as int));
    } else {
        push_decimal(s, n as u64);
    }
}

/// `s` holds `pat` as a run of consecutive characters.
pub open spec fn contains_seq(s: Seq<char>, pat: Seq<char>) -> bool {
    exists|i: int| 0 <= i <= s.len() - pat.len() && #[trigger] s.subrange(i, i + pat.len()) == pat
}

/// Whether `pat` occurs at position `i` of `s`.
fn occurs_at(s: &Vec<char>, pat: &Vec<char>, i: usize) -> (found: bool)
    requires
        i + pat.len() <= s.len(),
    ensures
        found == (s@.subrange(i as int, i + pat.len()) == pat@),
{
    let mut k: usize = 0;
    while k < pat.len()
        invariant
            k <= pat.len(),
            i + pat.len() <= s.len(),
            forall|m: int| 0 <= m < k ==> s@[i + m] == pat@[m],
        decreases pat.len() - k,
    {
        if s[i + k] != pat[k] {
            assert(s@.subrange(i as int, i + pat.len())[k as int] != pat@[k as int]);
            return false;
        }
        k += 1;
    }
    assert(s@.subrange(i as int, i + pat.len()) =~= pat@);
    true
}

/// Whether `s` holds `pat` as a run of consecutive characters.
pub fn str_contains(s: &str, pat: &str) -> (found: bool)
    ensures
        found == contains_seq(s@, pat@),
{
    let sv = chars_of(s);
    let pv = chars_of(pat);
    if pv.len() > sv.len() {
        return false;
    }
    let last = sv.len() - pv.len();
    let mut i: usize = 0;
    while i < last
        invariant
            i <= last,
            last == sv@.len() - pv@.len(),
            sv@ == s@,
            pv@ == pat@,
            forall|j: int| 0 <= j < i ==> #[trigger] s@.subrange(j, j + pat@.len()) != pat@,
        decreases last - i,
    {
        if occurs_at(&sv, &pv, i) {
            return true;
        }
        i += 1;
    }
    if occurs_at(&sv, &pv, last) {
        return true;
    }
    false
}

/// Appends the characters of `v` to `s`.
pub fn push_chars(s: &mut String, v: &Vec<char>)
    ensures
        final(s)@ == old(s)@ + v@,
{
    let mut i: usize = 0;
    while i < v.len()
        invariant
            i <= v.len(),
            s@ == old(s)@ + v@.take(i as int),
        decreases v.len() - i,
    {
        s.push(v[i]);
        assert(v@.take(i + 1) == v@.take(i as int).push(v@[i as int]));
        i += 1;
    }
    assert(v@.take(v@.len() as int) == v@);
}

/// The characters of `s` without its trailing white space.
pub fn trim_end_chars(s: &str) -> (t: Vec<char>)
    ensures
        t@ == trim_end(s@),
{
    let mut t = chars_of(s);
    while t.len() > 0 && is_white_space_char(t[t.len() - 1])
        invariant
            trim_end(t@) == trim_end(s@),
        decreases t.len(),
    {
        t.pop();
    }
    t
}

/// `s` without its leading and trailing `c` characters.
pub open spec fn trim_char(s: Seq<char>, c: char) -> Seq<char>
    decreases s.len(),
{
    if s.len() > 0 && s[0] == c {
        trim_char(s.drop_first(), c)
    } else if s.len() > 0 && s.last() == c {
        trim_char(s.drop_last(), c)
    } else {
        s
    }
}

/// The characters of `s` without its leading and trailing `c` characters.
pub fn trim_matches_char(s: &Vec<char>, c: char) -> (t: Vec<char>)
    ensures
        t@ == trim_char(s@, c),
{
    let mut start: usize = 0;
    let mut end: usize = s.len();
    assert(s@.subrange(0, s@.len() as int) == s@);
    while start < end && (s[start] == c || s[end - 1] == c)
        invariant
            start <= end <= s.len(),
            trim_char(s@.subrange(start as int, end as int), c) == trim_char(s@, c),
        decreases end - start,
    {
        let ghost sub = s@.subrange(start as int, end as int);
        if s[start] == c {
            assert(sub.drop_first() == s@.subrange(start + 1, end as int));
            start += 1;
        } else {
            assert(sub.drop_last() == s@.subrange(start as int, end - 1));
            end -= 1;
        }
    }
    let mut t: Vec<char> = Vec::new();
    let mut k: usize = start;
    while k < end
        invariant
            start <= k <= end,
            end <= s.len(),
            t@ == s@.subrange(start as int, k as int),
        decreases end - k,
    {
        t.push(s[k]);
        assert(s@.subrange(start as int, k + 1) == s@.subrange(start as int, k as int).push(s@[k as int]));
        k += 1;
    }
    t
}

/// What `str::parse::<usize>` gives: an optional `+`, then at least one
/// digit, and only digits, for a value that fits in a `usize`.
pub open spec fn parse_usize_spec(s: Seq<char>) -> Option<usize> {
    let d = unsigned_part(s);
    if d.len() > 0 && all_digits(d) && digits_value(d) <= usize::MAX {
        Some(digits_value(d) as usize)
    } else {
        None
    }
}

/// Reads a number the way `str::parse::<usize>` does.
pub fn parse_usize(s: &Vec<char>) -> (n: Option<usize>)
    ensures
        n == parse_usize_spec(s@),
{
    let start: usize = if s.len() > 0 && s[0] == '+' {
        1
    } else {
        0
    };
    let ghost d = unsigned_part(s@);
    assert(d == s@.subrange(start as int, s@.len() as int));
    if start >= s.len() {
        return None;
    }
    let mut value: usize = 0;
    let mut i: usize = start;
    while i < s.len()
        invariant
            start <= i <= s.len(),
            d == s@.subrange(start as int, s@.len() as int),
            d == unsigned_part(s@),
            d.len() > 0,
            value == digits_value(d.take(i - start)),
            forall|k: int| 0 <= k < i - start ==> is_digit(#[trigger] d[k]),
        decreases s.len() - i,
    {
        let c = s[i];
        assert(d[i - start] == c);
        if c < '0' || c > '9' {
            assert(!is_digit(d[i - start]));
            assert(!all_digits(d));
            return None;
        }
        assert(d.take(i - start + 1).drop_last() == d.take(i - start));
        assert(d.take(i - start + 1).last() == c);
        let digit = (c as u32 - '0' as u32) as usize;
        if value > (usize::MAX - digit) / 10 {
            proof {
                assert(value * 10 + digit > usize::MAX) by (nonlinear_arith)
                    requires
                        value > (usize::MAX - digit) / 10,
                        digit <= 9,
                ;
                if all_digits(d) {
                    lemma_digits_value_grows(d, i - start + 1);
                    assert(digits_value(d.take(i - start + 1)) == value * 10 + digit);
                }
            }
            return None;
        }
        proof {
            assert(value * 10 + digit <= usize::MAX) by (nonlinear_arith)
                requires
                    value <= (usize::MAX - digit) / 10,
                    digit <= 9,
            ;
        }
        value = value * 10 + digit;
        i += 1;
    }
    assert(d.take(d.len() as int) == d);
    Some(value)
}

/// An optional text that is present and reads `v`.
pub open spec fn holds_text(o: Option<String>, v: Seq<char>) -> bool {
    o matches Some(e) && e@ == v
}


/// What `str::parse::<u8>` gives: an optional `+`, then digits only, for a
/// value up to 255.
pub open spec fn parse_u8_spec(s: Seq<char>) -> Option<u8> {
    let d = unsigned_part(s);
    if d.len() > 0 && all_digits(d) && digits_value(d) <= u8::MAX {
        Some(digits_value(d) as u8)
    } else {
        None
    }
}

/// Reads a number the way `str::parse::<u8>` does.
pub fn parse_u8(s: &Vec<char>) -> (n: Option<u8>)
    ensures
        n == parse_u8_spec(s@),
{
    match parse_u32(s) {
        Some(v) => if v <= 255 {
            Some(v as u8)
        } else {
            None
        },
        None => None,
    }
}

/// What `str::parse::<i32>` gives: a `-` then digits only, or an optional
/// `+` then digits only, for a value that fits in an `i32`.
pub open spec fn parse_i32_spec(s: Seq<char>) -> Option<i32> {
    if s.len() > 0 && s[0] == '-' {
        let d = s.drop_first();
        if d.len() > 0 && all_digits(d) && digits_value(d) <= 0x8000_0000 {
            Some((0 - digits_value(d)) as i32)
        } else {
            None
        }
    } else {
        let d = unsigned_part(s);
        if d.len() > 0 && all_digits(d) && digits_value(d) <= i32::MAX {
            Some(digits_value(d) as i32)
        } else {
            None
        }
    }
}

/// Reads a number the way `str::parse::<i32>` does.
pub fn parse_i32(s: &Vec<char>) -> (n: Option<i32>)
    ensures
        n == parse_i32_spec(s@),
{
    if s.len() > 0 && s[0] == '-' {
        let mut rest: Vec<char> = Vec::new();
        let mut i: usize = 1;
        while i < s.len()
            invariant
                1 <= i <= s.len(),
                rest@ == s@.subrange(1, i as int),
            decreases s.len() - i,
        {
            rest.push(s[i]);
            i += 1;
        }
        assert(rest@ == s@.drop_first());
        if rest.len() > 0 && rest[0] == '+' {
            assert(!is_digit(rest@[0]));
            return None;
        }
        assert(unsigned_part(rest@) == rest@);
        match parse_u32(&rest) {
            Some(v) => if v <= 0x8000_0000 {
                let m: i64 = 0 - (v as i64);
                Some(m as i32)
            } else {
                None
            },
            None => None,
        }
    } else {
        match parse_u32(s) {
            Some(v) => if v <= 0x7FFF_FFFF {
                Some(v as i32)
            } else {
                None
            },
            None => None,
        }
    }
}

/// `p` begins `s`.
pub open spec fn has_prefix(s: Seq<char>, p: Seq<char>) -> bool {
    p.len() <= s.len() && s.subrange(0, p.len() as int) == p
}

/// Whether `s` begins with `p`.
pub fn str_starts_with(s: &str, p: &str) -> (found: bool)
    ensures
        found == has_prefix(s@, p@),
{
    let sv = chars_of(s);
    let pv = chars_of(p);
    if pv.len() > sv.len() {
        return false;
    }
    let mut i: usize = 0;
    while i < pv.len()
        invariant
            sv@ == s@,
            pv@ == p@,
            pv.len() <= sv.len(),
            i <= pv.len(),
            sv@.subrange(0, i as int) == pv@.subrange(0, i as int),
        decreases pv.len() - i,
    {
        let a = sv[i];
        let b = pv[i];
        if a != b {
            assert(sv@.subrange(0, pv.len() as int)[i as int] != pv@[i as int]);
            return false;
        }
        assert(sv@.subrange(0, i + 1) == sv@.subrange(0, i as int).push(sv@[i as int]));
        assert(pv@.subrange(0, i + 1) == pv@.subrange(0, i as int).push(pv@[i as int]));
        i += 1;
    }
    assert(pv@.subrange(0, pv.len() as int) == pv@);
    true
}

} // verus!
