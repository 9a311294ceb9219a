//! Text as sequences of characters: literals, decimal numbers in both
//! directions, trimming, splitting at commas, and lowercasing.
use vstd::prelude::*;

verus! {

/// The characters of a string slice.
pub fn chars_of(s: &str) -> (r: Vec<char>)
    ensures
        r@ == s@,
{
    let mut r: Vec<char> = Vec::new();
    for c in it: s.chars()
        invariant
            r@ == it.seq().take(it.index() as int),
    {
        r.push(c);
    }
    r
}

/// `a` followed by `b`.
pub fn concat(a: &Vec<char>, b: &Vec<char>) -> (r: Vec<char>)
    ensures
        r@ == a@ + b@,
{
    let mut r = a.clone();
    assert(r@ =~= a@);
    for i in 0..b.len()
        invariant
            r@ == a@ + b@.take(i as int),
    {
        r.push(b[i]);
        assert(r@ =~= a@ + b@.take(i + 1));
    }
    assert(b@.take(b.len() as int) =~= b@);
    r
}

/// A copy of the text.
pub fn copy_chars(v: &Vec<char>) -> (r: Vec<char>)
    ensures
        r@ == v@,
{
    let r = v.clone();
    assert(r@ =~= v@);
    r
}

// ---------------------------------------------------------------------
// Decimal numbers

/// The character of a decimal digit.
pub open spec fn digit_char(d: int) -> char {
    (d + 48) as char
}

/// A decimal digit character.
pub open spec fn is_digit(c: char) -> bool {
    '0' <= c <= '9'
}

/// The decimal notation of a natural number, without leading zeros.
pub open spec fn decimal(n: nat) -> Seq<char>
    decreases n,
{
    if n < 10 {
        seq![digit_char(n as int)]
    } else {
        decimal(n / 10).push(digit_char((n % 10) as int))
    }
}

/// The decimal notation of an integer, with a minus sign when negative
/// (as `to_string` writes integers).
pub open spec fn signed_decimal(i: int) -> Seq<char> {
    if i < 0 { seq!['-'] + decimal((-i) as nat) } else { decimal(i as nat) }
}

fn digit_of(d: u64) -> (c: char)
    requires
        d < 10,
    ensures
        c == digit_char(d as int),
{
    match d {
        0 => '0',
        1 => '1',
        2 => '2',
        3 => '3',
        4 => '4',
        5 => '5',
        6 => '6',
        7 => '7',
        8 => '8',
        _ => '9',
    }
}

/// The decimal notation of `n`.
pub fn decimal_text(n: u64) -> (r: Vec<char>)
    ensures
        r@ == decimal(n as nat),
    decreases n,
{
    let c = digit_of(n % 10);
    if n < 10 {
        let mut r: Vec<char> = Vec::new();
        r.push(c);
        assert(r@ =~= decimal(n as nat));
        r
    } else {
        let mut r = decimal_text(n / 10);
        r.push(c);
        r
    }
}

/// The decimal notation of `i`, with a minus sign when negative.
pub fn signed_decimal_text(i: i64) -> (r: Vec<char>)
    ensures
        r@ == signed_decimal(i as int),
{
    if i < 0 {
        let magnitude: u64 = if i == i64::MIN { 9223372036854775808u64 } else { (-i) as u64 };
        let mut r: Vec<char> = Vec::new();
        r.push('-');
        let digits = decimal_text(magnitude);
        let r = concat(&r, &digits);
        assert(r@ =~= signed_decimal(i as int));
        r
    } else {
        decimal_text(i as u64)
    }
}

/// Every character is a decimal digit.
pub open spec fn all_digits(s: Seq<char>) -> bool {
    forall|k: int| 0 <= k < s.len() ==> is_digit(#[trigger] s[k])
}

/// The value of a run of decimal digits.
pub open spec fn digits_value(s: Seq<char>) -> nat
    decreases s.len(),
{
    if s.len() == 0 {
        0
    } else {
        digits_value(s.drop_last()) * 10 + ((s.last() as nat) - 48) as nat
    }
}

/// The integer a text spells as `str::parse` reads integers: an optional
/// `+` (or `-`, where signs are allowed) and then one or more decimal
/// digits, nothing else; `None` for any other text.
pub open spec fn integer_value(s: Seq<char>, allow_minus: bool) -> Option<int> {
    if s.len() > 0 && s[0] == '+' {
        let body = s.drop_first();
        if body.len() > 0 && all_digits(body) { Some(digits_value(body) as int) } else { None }
    } else if allow_minus && s.len() > 0 && s[0] == '-' {
        let body = s.drop_first();
        if body.len() > 0 && all_digits(body) { Some(-(digits_value(body) as int)) } else { None }
    } else if s.len() > 0 && all_digits(s) {
        Some(digits_value(s) as int)
    } else {
        None
    }
}

/// What parsing the text as an integer in `[min, max]` gives: the value,
/// or `None` where the text is no integer or the integer does not fit.
pub open spec fn parsed_in(s: Seq<char>, allow_minus: bool, min: int, max: int) -> Option<int> {
    match integer_value(s, allow_minus) {
        Some(v) => if min <= v <= max { Some(v) } else { None },
        None => None,
    }
}

/// `s.parse::<i64>()`, as an option.
pub open spec fn parsed_i64(s: Seq<char>) -> Option<i64> {
    match parsed_in(s, true, i64::MIN as int, i64::MAX as int) {
        Some(v) => Some(v as i64),
        None => None,
    }
}

/// `s.parse::<u32>()`, as an option.
pub open spec fn parsed_u32(s: Seq<char>) -> Option<u32> {
    match parsed_in(s, false, 0, u32::MAX as int) {
        Some(v) => Some(v as u32),
        None => None,
    }
}

/// `s.parse::<u8>()`, as an option.
pub open spec fn parsed_u8(s: Seq<char>) -> Option<u8> {
    match parsed_in(s, false, 0, u8::MAX as int) {
        Some(v) => Some(v as u8),
        None => None,
    }
}

proof fn lemma_digits_value_prefix(s: Seq<char>, k: int)
    requires
        0 <= k <= s.len(),
        all_digits(s),
    ensures
        digits_value(s.take(k)) <= digits_value(s),
    decreases s.len(),
{
    if k < s.len() {
        assert(s.drop_last().take(k) =~= s.take(k));
        assert forall|j: int| 0 <= j < s.drop_last().len() implies is_digit(#[trigger] s.drop_last()[j]) by {
            assert(s.drop_last()[j] == s[j]);
        }
        lemma_digits_value_prefix(s.drop_last(), k);
    } else {
        assert(s.take(k) =~= s);
    }
}

/// The value of the digits `s[from..]`, or `None` where one is no digit or
/// the value exceeds `limit`.
fn digits_up_to(s: &Vec<char>, from: usize, limit: u64) -> (r: Option<u64>)
    requires
        from <= s.len(),
        limit <= 10_000_000_000_000_000_000u64,
    ensures
        r matches Some(v) ==> all_digits(s@.skip(from as int)) && v == digits_value(s@.skip(from as int)) && v <= limit,
        r is None ==> !all_digits(s@.skip(from as int)) || digits_value(s@.skip(from as int)) > limit,
{
    let ghost body = s@.skip(from as int);
    let mut acc: u64 = 0;
    let mut i = from;
    while i < s.len()
        invariant
            from <= i <= s.len(),
            body == s@.skip(from as int),
            limit <= 10_000_000_000_000_000_000u64,
            acc <= limit,
            all_digits(body.take(i - from)),
            acc == digits_value(body.take(i - from)),
        decreases s.len() - i,
    {
        let c = s[i];
        let ghost pre = body.take(i - from);
        let ghost post = body.take(i - from + 1);
        assert(post.drop_last() =~= pre);
        assert(post.last() == c);
        if !('0' <= c && c <= '9') {
            assert(!is_digit(body[i - from]));
            return None;
        }
        let d = (c as u32 - 48) as u64;
        assert(all_digits(post)) by {
            assert forall|k: int| 0 <= k < post.len() implies is_digit(#[trigger] post[k]) by {
                if k < pre.len() {
                    assert(post[k] == pre[k]);
                }
            }
        }
        if d > limit {
            proof {
                if all_digits(body) {
                    lemma_digits_value_prefix(body, i - from + 1);
                }
            }
            return None;
        }
        if acc > (limit - d) / 10 {
            proof {
                assert(acc * 10 + d > limit) by (nonlinear_arith)
                    requires acc > (limit - d) / 10, d <= limit;
                if all_digits(body) {
                    lemma_digits_value_prefix(body, i - from + 1);
                }
            }
            return None;
        }
        assert(acc * 10 + d <= limit) by (nonlinear_arith)
            requires acc <= (limit - d) / 10, d <= limit;
        acc = acc * 10 + d;
        i = i + 1;
    }
    assert(body.take(i - from) =~= body);
    Some(acc)
}

/// Parses the text as an integer in `[min, max]`, as `str::parse` does for
/// an integer type with that range.
pub fn parse_integer(s: &Vec<char>, allow_minus: bool, min: i64, max: u64) -> (r: Option<i128>)
    requires
        min <= 0,
        max <= 10_000_000_000_000_000_000u64,
        -min <= max + 1,
    ensures
        r matches Some(v) ==> parsed_in(s@, allow_minus, min as int, max as int) == Some(v as int),
        r is None ==> parsed_in(s@, allow_minus, min as int, max as int) is None,
{
    if s.len() > 0 && s[0] == '+' {
        assert(s@.skip(1) =~= s@.drop_first());
        if s.len() == 1 {
            return None;
        }
        match digits_up_to(s, 1, max) {
            Some(v) => Some(v as i128),
            None => None,
        }
    } else if allow_minus && s.len() > 0 && s[0] == '-' {
        assert(s@.skip(1) =~= s@.drop_first());
        if s.len() == 1 {
            return None;
        }
        let magnitude: u64 = (-(min as i128)) as u64;
        match digits_up_to(s, 1, magnitude) {
            Some(v) => Some(-(v as i128)),
            None => None,
        }
    } else {
        assert(s@.skip(0) =~= s@);
        if s.len() == 0 {
            return None;
        }
        match digits_up_to(s, 0, max) {
            Some(v) => Some(v as i128),
            None => None,
        }
    }
}

/// `s.parse::<i64>().ok()`.
pub fn parse_i64(s: &Vec<char>) -> (r: Option<i64>)
    ensures
        r == parsed_i64(s@),
{
    match parse_integer(s, true, i64::MIN, i64::MAX as u64) {
        Some(v) => Some(v as i64),
        None => None,
    }
}

/// `s.parse::<u32>().ok()`.
pub fn parse_u32(s: &Vec<char>) -> (r: Option<u32>)
    ensures
        r == parsed_u32(s@),
{
    match parse_integer(s, false, 0, u32::MAX as u64) {
        Some(v) => Some(v as u32),
        None => None,
    }
}

/// `s.parse::<u8>().ok()`.
pub fn parse_u8(s: &Vec<char>) -> (r: Option<u8>)
    ensures
        r == parsed_u8(s@),
{
    match parse_integer(s, false, 0, u8::MAX as u64) {
        Some(v) => Some(v as u8),
        None => None,
    }
}

// ---------------------------------------------------------------------
// Comparing, trimming and splitting

/// Whether the two texts are the same.
pub fn same_text(a: &Vec<char>, b: &Vec<char>) -> (r: bool)
    ensures
        r == (a@ == b@),
{
    if a.len() != b.len() {
        return false;
    }
    for i in 0..a.len()
        invariant
            a@.len() == b@.len(),
            forall|j: int| 0 <= j < i ==> a@[j] == b@[j],
    {
        if a[i] != b[i] {
            return false;
        }
    }
    assert(a@ =~= b@);
    true
}

/// The characters with Unicode's White_Space property, which
/// `char::is_whitespace` tests for.
pub open spec fn is_whitespace(c: char) -> bool {
    ||| '\u{9}' <= c <= '\u{d}'
    ||| c == ' '
    ||| c == '\u{85}'
    ||| c == '\u{a0}'
    ||| c == '\u{1680}'
    ||| '\u{2000}' <= c <= '\u{200a}'
    ||| c == '\u{2028}'
    ||| c == '\u{2029}'
    ||| c == '\u{202f}'
    ||| c == '\u{205f}'
    ||| c == '\u{3000}'
}

/// Whether `c` is white space.
pub fn whitespace(c: char) -> (r: bool)
    ensures
        r == is_whitespace(c),
{
    ('\u{9}' <= c && c <= '\u{d}') || c == ' ' || c == '\u{85}' || c == '\u{a0}' || c == '\u{1680}'
        || ('\u{2000}' <= c && c <= '\u{200a}') || c == '\u{2028}' || c == '\u{2029}' || c == '\u{202f}'
        || c == '\u{205f}' || c == '\u{3000}'
}

/// The text without trailing white space.
pub open spec fn trim_end(s: Seq<char>) -> Seq<char>
    decreases s.len(),
{
    if s.len() > 0 && is_whitespace(s.last()) { trim_end(s.drop_last()) } else { s }
}

/// The text without leading white space.
pub open spec fn trim_start(s: Seq<char>) -> Seq<char>
    decreases s.len(),
{
    if s.len() > 0 && is_whitespace(s[0]) { trim_start(s.drop_first()) } else { s }
}

/// The text without leading and trailing white space.
pub open spec fn trim(s: Seq<char>) -> Seq<char> {
    trim_start(trim_end(s))
}

/// Trimming the end keeps a prefix.
pub proof fn lemma_trim_end_prefix(s: Seq<char>)
    ensures
        trim_end(s).len() <= s.len(),
        trim_end(s) == s.take(trim_end(s).len() as int),
    decreases s.len(),
{
    if s.len() > 0 && is_whitespace(s.last()) {
        lemma_trim_end_prefix(s.drop_last());
        assert(s.drop_last().take(trim_end(s).len() as int) =~= s.take(trim_end(s).len() as int));
    } else {
        assert(s.take(s.len() as int) =~= s);
    }
}

/// The length of the text without trailing white space.
fn trimmed_end_len(s: &Vec<char>) -> (e: usize)
    ensures
        e <= s.len(),
        trim_end(s@) == s@.take(e as int),
{
    let mut e = s.len();
    assert(s@.take(e as int) =~= s@);
    while e > 0 && whitespace(s[e - 1])
        invariant
            e <= s.len(),
            trim_end(s@) == trim_end(s@.take(e as int)),
        decreases e,
    {
        assert(s@.take(e as int).drop_last() =~= s@.take(e - 1));
        e = e - 1;
    }
    e
}

/// The text without leading and trailing white space (`str::trim`).
pub fn trimmed(s: &Vec<char>) -> (r: Vec<char>)
    ensures
        r@ == trim(s@),
{
    let e = trimmed_end_len(s);
    let ghost t = s@.take(e as int);
    let mut b: usize = 0;
    assert(t.skip(0) =~= t);
    while b < e && whitespace(s[b])
        invariant
            b <= e <= s.len(),
            t == s@.take(e as int),
            trim_start(t) == trim_start(t.skip(b as int)),
        decreases e - b,
    {
        assert(t.skip(b as int).drop_first() =~= t.skip(b + 1));
        b = b + 1;
    }
    let mut r: Vec<char> = Vec::new();
    let mut i = b;
    while i < e
        invariant
            b <= i <= e <= s.len(),
            r@ == s@.subrange(b as int, i as int),
        decreases e - i,
    {
        r.push(s[i]);
        assert(r@ =~= s@.subrange(b as int, i + 1));
        i = i + 1;
    }
    assert(r@ =~= t.skip(b as int));
    r
}

/// The position of the last space, or -1.
pub open spec fn last_space(s: Seq<char>) -> int
    decreases s.len(),
{
    if s.len() == 0 {
        -1
    } else if s.last() == ' ' {
        s.len() - 1
    } else {
        last_space(s.drop_last())
    }
}

proof fn lemma_last_space_bounds(s: Seq<char>)
    ensures
        -1 <= last_space(s) < s.len(),
    decreases s.len(),
{
    if s.len() > 0 {
        lemma_last_space_bounds(s.drop_last());
    }
}

/// The text with its last word removed, as Ctrl-W does: after the last
/// space before any trailing white space, or nothing where there is no
/// such space.
pub open spec fn without_last_word(s: Seq<char>) -> Seq<char> {
    s.take(last_space(trim_end(s)) + 1)
}

/// Removes the last word (Ctrl-W).
pub fn remove_last_word(s: &mut Vec<char>)
    ensures
        final(s)@ == without_last_word(old(s)@),
{
    let e = trimmed_end_len(s);
    let mut k = e;
    let ghost t = s@.take(e as int);
    assert(t.take(k as int) =~= t);
    while k > 0 && s[k - 1] != ' '
        invariant
            k <= e <= s.len(),
            t == s@.take(e as int),
            last_space(t) == last_space(t.take(k as int)),
        decreases k,
    {
        assert(t.take(k as int).drop_last() =~= t.take(k - 1));
        k = k - 1;
    }
    proof {
        lemma_last_space_bounds(t);
        if k > 0 {
            assert(t.take(k as int).last() == ' ');
        }
    }
    s.truncate(k);
}

/// The pieces of the text between commas (`str::split(',')`): one more
/// piece than there are commas.
pub open spec fn split_commas(s: Seq<char>) -> Seq<Seq<char>>
    decreases s.len(),
{
    if s.len() == 0 {
        seq![Seq::empty()]
    } else {
        let pieces = split_commas(s.drop_last());
        if s.last() == ',' {
            pieces.push(Seq::empty())
        } else {
            pieces.update(pieces.len() - 1, pieces.last().push(s.last()))
        }
    }
}

proof fn lemma_split_commas_nonempty(s: Seq<char>)
    ensures
        split_commas(s).len() >= 1,
    decreases s.len(),
{
    if s.len() > 0 {
        lemma_split_commas_nonempty(s.drop_last());
    }
}

/// The ids read from a comma-separated list: each piece, trimmed, that
/// parses as a `u32`, in order; other pieces are skipped.
pub open spec fn ids_in_pieces(pieces: Seq<Seq<char>>) -> Seq<u32>
    decreases pieces.len(),
{
    if pieces.len() == 0 {
        Seq::empty()
    } else {
        let rest = ids_in_pieces(pieces.drop_last());
        match parsed_u32(trim(pieces.last())) {
            Some(v) => rest.push(v),
            None => rest,
        }
    }
}

/// The ids in a comma-separated list.
pub open spec fn ids_in_list(s: Seq<char>) -> Seq<u32> {
    ids_in_pieces(split_commas(s))
}

fn split_at_commas(s: &Vec<char>) -> (r: Vec<Vec<char>>)
    ensures
        r@.len() == split_commas(s@).len(),
        forall|k: int| 0 <= k < r@.len() ==> (#[trigger] r@[k])@ == split_commas(s@)[k],
{
    let mut pieces: Vec<Vec<char>> = Vec::new();
    let mut cur: Vec<char> = Vec::new();
    assert(s@.take(0) =~= Seq::<char>::empty());
    for i in 0..s.len()
        invariant
            pieces@.len() + 1 == split_commas(s@.take(i as int)).len(),
            forall|k: int| 0 <= k < pieces@.len() ==> (#[trigger] pieces@[k])@ == split_commas(s@.take(i as int))[k],
            cur@ == split_commas(s@.take(i as int)).last(),
    {
        let ghost pre = s@.take(i as int);
        let ghost post = s@.take(i + 1);
        assert(post.drop_last() =~= pre);
        proof { lemma_split_commas_nonempty(pre); }
        let c = s[i];
        if c == ',' {
            let mut done: Vec<char> = Vec::new();
            std::mem::swap(&mut cur, &mut done);
            pieces.push(done);
            assert(cur@ =~= Seq::<char>::empty());
        } else {
            cur.push(c);
        }
    }
    assert(s@.take(s.len() as int) =~= s@);
    pieces.push(cur);
    pieces
}

/// The ids in a comma-separated list (`Dependencies` editing).
pub fn parse_id_list(s: &Vec<char>) -> (r: Vec<u32>)
    ensures
        r@ == ids_in_list(s@),
{
    let pieces = split_at_commas(s);
    let ghost sp = split_commas(s@);
    let mut r: Vec<u32> = Vec::new();
    for k in 0..pieces.len()
        invariant
            pieces@.len() == sp.len(),
            forall|j: int| 0 <= j < pieces@.len() ==> (#[trigger] pieces@[j])@ == sp[j],
            r@ == ids_in_pieces(sp.take(k as int)),
    {
        assert(sp.take(k + 1).drop_last() =~= sp.take(k as int));
        let piece = trimmed(&pieces[k]);
        match parse_u32(&piece) {
            Some(v) => r.push(v),
            None => {},
        }
    }
    assert(sp.take(pieces.len() as int) =~= sp);
    r
}

// ---------------------------------------------------------------------
// Case

/// What `str::to_lowercase` gives for the text.
pub uninterp spec fn lowercased(text: Seq<char>) -> Seq<char>;

/// Calls `str::to_lowercase` (std). Trusted: the result is named by
/// `lowercased`, a function of the text alone.
#[verifier::external_body]
pub(crate) fn lowercase(text: &Vec<char>) -> (r: Vec<char>)
    ensures
        r@ == lowercased(text@),
{
    let s: String = text.iter().collect();
    s.to_lowercase().chars().collect()
}

// ---------------------------------------------------------------------
// Reading back what was written

/// Decimal notation consists of digits, and spells the number.
pub proof fn lemma_decimal_reads_back(n: nat)
    ensures
        decimal(n).len() > 0,
        all_digits(decimal(n)),
        digits_value(decimal(n)) == n,
    decreases n,
{
    let c = digit_char((n % 10) as int);
    assert(c as int == (n % 10) + 48);
    if n < 10 {
        assert(decimal(n).drop_last() =~= Seq::<char>::empty());
        assert(decimal(n).last() == c);
        assert(n % 10 == n);
        assert(digits_value(decimal(n)) == digits_value(Seq::<char>::empty()) * 10 + ((c as nat) - 48) as nat);
    }
    if n >= 10 {
        lemma_decimal_reads_back(n / 10);
        assert((n / 10) * 10 + n % 10 == n) by (nonlinear_arith);
        let d = decimal(n);
        assert(d.drop_last() =~= decimal(n / 10));
        assert(d.last() == c);
        assert(digits_value(d) == digits_value(decimal(n / 10)) * 10 + ((c as nat) - 48) as nat);
        assert forall|k: int| 0 <= k < d.len() implies is_digit(#[trigger] d[k]) by {
            if k < d.len() - 1 {
                assert(d[k] == decimal(n / 10)[k]);
            }
        }
    }
}

/// Digits are no white space, so trimming leaves decimal notation alone.
pub proof fn lemma_trim_decimal(n: nat)
    ensures
        trim(decimal(n)) == decimal(n),
        trim(seq![' '] + decimal(n)) == decimal(n),
{
    lemma_decimal_reads_back(n);
    let d = decimal(n);
    assert(is_digit(d[0]) && is_digit(d[d.len() - 1]));
    assert(trim_end(d) == d);
    assert(trim_start(d) == d);
    let sd = seq![' '] + d;
    assert(sd.last() == d.last());
    assert(trim_end(sd) == sd);
    assert(sd.drop_first() =~= d);
}

/// Reading a `u32` back from its decimal notation gives the number.
pub proof fn lemma_u32_reads_back(n: u32)
    ensures
        parsed_u32(decimal(n as nat)) == Some(n),
        parsed_u32(trim(decimal(n as nat))) == Some(n),
        parsed_u32(trim(seq![' '] + decimal(n as nat))) == Some(n),
{
    lemma_decimal_reads_back(n as nat);
    lemma_trim_decimal(n as nat);
    assert(is_digit(decimal(n as nat)[0]));
}

/// Reading a `u8` back from its decimal notation gives the number.
pub proof fn lemma_u8_reads_back(n: u8)
    ensures
        parsed_u8(decimal(n as nat)) == Some(n),
{
    lemma_decimal_reads_back(n as nat);
    assert(is_digit(decimal(n as nat)[0]));
}

/// Reading an `i64` back from its notation gives the number, and the
/// notation needs no trimming.
pub proof fn lemma_i64_reads_back(i: i64)
    ensures
        parsed_i64(signed_decimal(i as int)) == Some(i),
        trim(signed_decimal(i as int)) == signed_decimal(i as int),
        signed_decimal(i as int).len() > 0,
        is_digit(signed_decimal(i as int).last()),
{
    if i < 0 {
        let m = (-i) as nat;
        lemma_decimal_reads_back(m);
        let s = signed_decimal(i as int);
        assert(s[0] == '-');
        assert(s.drop_first() =~= decimal(m));
        assert(s.last() == decimal(m).last());
        assert(is_digit(decimal(m)[decimal(m).len() - 1]));
        assert(trim_end(s) == s);
        assert(trim_start(s) == s);
    } else {
        lemma_decimal_reads_back(i as nat);
        lemma_trim_decimal(i as nat);
        assert(is_digit(decimal(i as nat)[0]));
        assert(is_digit(decimal(i as nat)[decimal(i as nat).len() - 1]));
    }
}

/// Appending text without commas extends the last piece.
pub proof fn lemma_split_append(s: Seq<char>, t: Seq<char>)
    requires
        forall|k: int| 0 <= k < t.len() ==> t[k] != ',',
    ensures
        split_commas(s + t) == split_commas(s).update(split_commas(s).len() - 1, split_commas(s).last() + t),
    decreases t.len(),
{
    lemma_split_commas_nonempty(s);
    if t.len() == 0 {
        assert(s + t =~= s);
        assert(split_commas(s).last() + t =~= split_commas(s).last());
        assert(split_commas(s).update(split_commas(s).len() - 1, split_commas(s).last()) =~= split_commas(s));
    } else {
        lemma_split_append(s, t.drop_last());
        assert((s + t).drop_last() =~= s + t.drop_last());
        assert((s + t).last() == t.last());
        assert(t.last() == t[t.len() - 1]);
        let p = split_commas(s);
        let q = split_commas(s + t.drop_last());
        lemma_split_commas_nonempty(s + t.drop_last());
        assert(q.last() == p.last() + t.drop_last());
        assert(q.last().push(t.last()) =~= p.last() + t);
        assert(t[t.len() - 1] != ',');
        assert(split_commas(s + t) == q.update(q.len() - 1, q.last().push(t.last())));
        assert(split_commas(s + t) =~= p.update(p.len() - 1, p.last() + t));
    }
}

} // verus!
