use vstd::prelude::*;

verus! {

/// The characters that Unicode gives the White_Space property.
pub open spec fn is_ws(c: char) -> bool {
    ||| ('\u{9}' <= c && c <= '\u{d}')
    ||| c == ' '
    ||| c == '\u{85}'
    ||| c == '\u{a0}'
    ||| c == '\u{1680}'
    ||| ('\u{2000}' <= c && c <= '\u{200a}')
    ||| c == '\u{2028}'
    ||| c == '\u{2029}'
    ||| c == '\u{202f}'
    ||| c == '\u{205f}'
    ||| c == '\u{3000}'
}

/// The text without its leading white space.
pub open spec fn trim_start(s: Seq<char>) -> Seq<char>
    decreases s.len(),
{
    if s.len() > 0 && is_ws(s[0]) {
        trim_start(s.drop_first())
    } else {
        s
    }
}

/// The text without its trailing white space.
pub open spec fn trim_end(s: Seq<char>) -> Seq<char>
    decreases s.len(),
{
    if s.len() > 0 && is_ws(s.last()) {
        trim_end(s.drop_last())
    } else {
        s
    }
}

/// The text without leading and trailing white space.
pub open spec fn trim(s: Seq<char>) -> Seq<char> {
    trim_end(trim_start(s))
}

pub fn char_is_ws(c: char) -> (r: bool)
    ensures
        r == is_ws(c),
{
    ('\u{9}' <= c && c <= '\u{d}') || c == ' ' || c == '\u{85}' || c == '\u{a0}' || c
        == '\u{1680}' || ('\u{2000}' <= c && c <= '\u{200a}') || c == '\u{2028}' || c
        == '\u{2029}' || c == '\u{202f}' || c == '\u{205f}' || c == '\u{3000}'
}

/// A string holding the characters of `v`, in order.
///
/// Trusted: the body is `Iterator::collect` of the slice's `&char` items into
/// a `String`, whose `FromIterator<&char>` implementation in std pushes each
/// character it is given, in order; the contract states exactly that and
/// nothing more.
#[verifier::external_body]
pub(crate) fn string_of(v: &[char]) -> (s: String)
    ensures
        s@ == v@,
{
    v.iter().collect()
}

/// A string holding the literal `s`.
pub fn lit(s: &str) -> (r: String)
    ensures
        r@ == s@,
{
    String::from_str(s)
}

/// Appends the characters of `s` to `v`.
pub fn push_all(v: &mut Vec<char>, s: &[char])
    ensures
        final(v)@ == old(v)@ + s@,
{
    let ghost v0 = v@;
    let mut i: usize = 0;
    while i < s.len()
        invariant
            i <= s@.len(),
            v@ == v0 + s@.take(i as int),
        decreases s@.len() - i,
    {
        v.push(s[i]);
        i += 1;
        assert(v@ =~= v0 + s@.take(i as int));
    }
    assert(s@.take(s@.len() as int) =~= s@);
}

/// Appends the characters of `s` to `v`.
pub fn push_str(v: &mut Vec<char>, s: &str)
    ensures
        final(v)@ == old(v)@ + s@,
{
    let c = chars_of(s);
    push_all(v, c.as_slice());
}

/// The characters of a string, in order.
pub fn chars_of(s: &str) -> (v: Vec<char>)
    ensures
        v@ == s@,
{
    let mut v: Vec<char> = Vec::new();
    for c in it: s.chars()
        invariant
            v@ == it.seq().take(it.index() as int),
    {
        v.push(c);
    }
    v
}

/// A copy of `s[from..to]`.
pub fn slice_of(s: &[char], from: usize, to: usize) -> (v: Vec<char>)
    requires
        from <= to <= s@.len(),
    ensures
        v@ == s@.subrange(from as int, to as int),
{
    let mut v: Vec<char> = Vec::new();
    let mut i = from;
    while i < to
        invariant
            from <= i <= to <= s@.len(),
            v@ == s@.subrange(from as int, i as int),
        decreases to - i,
    {
        v.push(s[i]);
        i += 1;
    }
    v
}

proof fn lemma_trim_start_at(s: Seq<char>, i: int)
    requires
        0 <= i <= s.len(),
        forall|k: int| 0 <= k < i ==> is_ws(#[trigger] s[k]),
        i == s.len() || !is_ws(s[i]),
    ensures
        trim_start(s) == s.subrange(i, s.len() as int),
    decreases i,
{
    if i == 0 {
        assert(s.subrange(0, s.len() as int) =~= s);
    } else {
        let t = s.drop_first();
        assert forall|k: int| 0 <= k < i - 1 implies is_ws(#[trigger] t[k]) by {
            assert(t[k] == s[k + 1]);
        }
        lemma_trim_start_at(t, i - 1);
        assert(t.subrange(i - 1, t.len() as int) =~= s.subrange(i, s.len() as int));
    }
}

proof fn lemma_trim_end_at(s: Seq<char>, j: int)
    requires
        0 <= j <= s.len(),
        forall|k: int| j <= k < s.len() ==> is_ws(#[trigger] s[k]),
        j == 0 || !is_ws(s[j - 1]),
    ensures
        trim_end(s) == s.subrange(0, j),
    decreases s.len() - j,
{
    if j == s.len() {
        assert(s.subrange(0, j) =~= s);
    } else {
        let t = s.drop_last();
        assert forall|k: int| j <= k < t.len() implies is_ws(#[trigger] t[k]) by {
            assert(t[k] == s[k]);
        }
        lemma_trim_end_at(t, j);
        assert(t.subrange(0, j) =~= s.subrange(0, j));
    }
}

/// `s` without leading and trailing white space.
pub fn trim_chars(s: &[char]) -> (v: Vec<char>)
    ensures
        v@ == trim(s@),
{
    let n = s.len();
    let mut i: usize = 0;
    while i < n && char_is_ws(s[i])
        invariant
            i <= n == s@.len(),
            forall|k: int| 0 <= k < i ==> is_ws(#[trigger] s@[k]),
        decreases n - i,
    {
        i += 1;
    }
    proof {
        lemma_trim_start_at(s@, i as int);
    }
    let mut j: usize = n;
    while j > i && char_is_ws(s[j - 1])
        invariant
            i <= j <= n == s@.len(),
            forall|k: int| j <= k < n ==> is_ws(#[trigger] s@[k]),
        decreases j,
    {
        j -= 1;
    }
    let ghost t = s@.subrange(i as int, n as int);
    proof {
        assert forall|k: int| j - i <= k < t.len() implies is_ws(#[trigger] t[k]) by {
            assert(t[k] == s@[k + i]);
        }
        if j > i {
            assert(t[j - i - 1] == s@[j - 1]);
        }
        lemma_trim_end_at(t, j - i);
        assert(t.subrange(0, j - i) =~= s@.subrange(i as int, j as int));
    }
    slice_of(s, i, j)
}


/// The texts held by a vector of character vectors.
pub open spec fn seqs(v: Seq<Vec<char>>) -> Seq<Seq<char>> {
    v.map_values(|x: Vec<char>| x@)
}

/// Splits `s` at every `sep`: the pieces of `str::split` with a char pattern.
pub open spec fn split(s: Seq<char>, sep: char) -> Seq<Seq<char>>
    decreases s.len(),
{
    if s.len() == 0 {
        seq![Seq::<char>::empty()]
    } else {
        let p = split(s.drop_last(), sep);
        if s.last() == sep {
            p.push(Seq::<char>::empty())
        } else {
            p.update(p.len() - 1, p.last().push(s.last()))
        }
    }
}

/// Splits `s` at its first `n - 1` separators: the pieces of `str::splitn(n, sep)`.
pub open spec fn splitn(s: Seq<char>, n: nat, sep: char) -> Seq<Seq<char>>
    decreases s.len(),
{
    if s.len() == 0 {
        seq![Seq::<char>::empty()]
    } else {
        let p = splitn(s.drop_last(), n, sep);
        if s.last() == sep && p.len() < n {
            p.push(Seq::<char>::empty())
        } else {
            p.update(p.len() - 1, p.last().push(s.last()))
        }
    }
}

/// The `i`-th piece, or the empty text where there is none.
pub open spec fn piece(parts: Seq<Seq<char>>, i: int) -> Seq<char> {
    if 0 <= i < parts.len() {
        parts[i]
    } else {
        Seq::<char>::empty()
    }
}

/// A line without the carriage return that ends it.
pub open spec fn strip_cr(l: Seq<char>) -> Seq<char> {
    if l.len() > 0 && l.last() == '\r' {
        l.drop_last()
    } else {
        l
    }
}

/// The lines of `s`, as `str::lines` gives them.
pub open spec fn lines(s: Seq<char>) -> Seq<Seq<char>> {
    let p = split(s, '\n');
    if p.last().len() == 0 {
        p.drop_last().map_values(|l: Seq<char>| strip_cr(l))
    } else {
        p.drop_last().map_values(|l: Seq<char>| strip_cr(l)).push(p.last())
    }
}

proof fn lemma_split_len(s: Seq<char>, sep: char)
    ensures
        split(s, sep).len() >= 1,
    decreases s.len(),
{
    if s.len() > 0 {
        lemma_split_len(s.drop_last(), sep);
    }
}

proof fn lemma_splitn_len(s: Seq<char>, n: nat, sep: char)
    requires
        n >= 1,
    ensures
        1 <= splitn(s, n, sep).len() <= n,
    decreases s.len(),
{
    if s.len() > 0 {
        lemma_splitn_len(s.drop_last(), n, sep);
    }
}

/// The pieces of `s` between the separators `sep`.
pub fn split_chars(s: &[char], sep: char) -> (parts: Vec<Vec<char>>)
    ensures
        seqs(parts@) == split(s@, sep),
{
    let mut parts: Vec<Vec<char>> = Vec::new();
    let mut cur: Vec<char> = Vec::new();
    let mut i: usize = 0;
    while i < s.len()
        invariant
            i <= s@.len(),
            seqs(parts@).push(cur@) == split(s@.take(i as int), sep),
        decreases s@.len() - i,
    {
        proof {
            assert(s@.take(i + 1).drop_last() =~= s@.take(i as int));
            assert(s@.take(i + 1).last() == s@[i as int]);
            lemma_split_len(s@.take(i as int), sep);
        }
        if s[i] == sep {
            let ghost before = seqs(parts@);
            let done = cur;
            parts.push(done);
            cur = Vec::new();
            proof {
                assert(seqs(parts@) =~= before.push(done@));
                assert(seqs(parts@).push(cur@) =~= split(s@.take(i as int), sep).push(
                    Seq::<char>::empty(),
                ));
            }
        } else {
            let ghost before = seqs(parts@);
            cur.push(s[i]);
            proof {
                assert(seqs(parts@).push(cur@) =~= before.push(cur@));
            }
        }
        i += 1;
    }
    assert(s@.take(s@.len() as int) =~= s@);
    let ghost before = seqs(parts@);
    let last = cur;
    parts.push(last);
    assert(seqs(parts@) =~= before.push(last@));
    parts
}

/// At most `n` pieces: the last holds the rest of `s`, separators included.
pub fn splitn_chars(s: &[char], n: usize, sep: char) -> (parts: Vec<Vec<char>>)
    requires
        n >= 1,
    ensures
        seqs(parts@) == splitn(s@, n as nat, sep),
{
    let mut parts: Vec<Vec<char>> = Vec::new();
    let mut cur: Vec<char> = Vec::new();
    let mut i: usize = 0;
    while i < s.len()
        invariant
            i <= s@.len(),
            n >= 1,
            seqs(parts@).push(cur@) == splitn(s@.take(i as int), n as nat, sep),
        decreases s@.len() - i,
    {
        proof {
            assert(s@.take(i + 1).drop_last() =~= s@.take(i as int));
            assert(s@.take(i + 1).last() == s@[i as int]);
            lemma_splitn_len(s@.take(i as int), n as nat, sep);
        }
        if s[i] == sep && parts.len() + 1 < n {
            let ghost before = seqs(parts@);
            let done = cur;
            parts.push(done);
            cur = Vec::new();
            proof {
                assert(seqs(parts@) =~= before.push(done@));
                assert(seqs(parts@).push(cur@) =~= splitn(s@.take(i as int), n as nat, sep).push(
                    Seq::<char>::empty(),
                ));
            }
        } else {
            let ghost before = seqs(parts@);
            cur.push(s[i]);
            proof {
                assert(seqs(parts@).push(cur@) =~= before.push(cur@));
            }
        }
        i += 1;
    }
    assert(s@.take(s@.len() as int) =~= s@);
    let ghost before = seqs(parts@);
    let last = cur;
    parts.push(last);
    assert(seqs(parts@) =~= before.push(last@));
    parts
}

/// The `i`-th piece of `parts`, or an empty text where there is none.
pub fn piece_of(parts: &Vec<Vec<char>>, i: usize) -> (v: Vec<char>)
    ensures
        v@ == piece(seqs(parts@), i as int),
{
    if i < parts.len() {
        slice_of(parts[i].as_slice(), 0, parts[i].len())
    } else {
        Vec::new()
    }
}

/// The lines of `s`.
pub fn lines_of(s: &[char]) -> (ls: Vec<Vec<char>>)
    ensures
        seqs(ls@) == lines(s@),
{
    let parts = split_chars(s, '\n');
    proof {
        lemma_split_len(s@, '\n');
    }
    let k = parts.len() - 1;
    let ghost p = seqs(parts@);
    let mut ls: Vec<Vec<char>> = Vec::new();
    let mut i: usize = 0;
    while i < k
        invariant
            k + 1 == parts.len(),
            p == seqs(parts@),
            i <= k,
            seqs(ls@) == p.take(i as int).map_values(|l: Seq<char>| strip_cr(l)),
        decreases k - i,
    {
        let line = &parts[i];
        let n = line.len();
        let stripped = if n > 0 && line[n - 1] == '\r' {
            slice_of(line.as_slice(), 0, n - 1)
        } else {
            slice_of(line.as_slice(), 0, n)
        };
        proof {
            assert(p[i as int] == line@);
            assert(line@.subrange(0, n as int) =~= line@);
            if n > 0 {
                assert(line@.subrange(0, n - 1) =~= line@.drop_last());
            }
            assert(stripped@ == strip_cr(p[i as int]));
        }
        let ghost before = seqs(ls@);
        ls.push(stripped);
        i += 1;
        proof {
            assert(seqs(ls@) =~= before.push(stripped@));
            assert(p.take(i as int) =~= p.take(i - 1).push(p[i - 1]));
            assert(seqs(ls@) =~= p.take(i as int).map_values(|l: Seq<char>| strip_cr(l)));
        }
    }
    assert(p.take(k as int) =~= p.drop_last());
    if parts[k].len() == 0 {
        ls
    } else {
        let last = slice_of(parts[k].as_slice(), 0, parts[k].len());
        assert(parts[k as int]@.subrange(0, parts[k as int]@.len() as int) =~= parts[k as int]@);
        let ghost before = seqs(ls@);
        ls.push(last);
        proof {
            assert(seqs(ls@) =~= before.push(last@));
            assert(seqs(ls@) =~= p.drop_last().map_values(|l: Seq<char>| strip_cr(l)).push(
                p.last(),
            ));
        }
        ls
    }
}


/// `s` begins with `pat`.
pub fn starts_with_str(s: &[char], pat: &str) -> (r: bool)
    ensures
        r == pat@.is_prefix_of(s@),
{
    let p = chars_of(pat);
    if p.len() > s.len() {
        return false;
    }
    let mut i: usize = 0;
    while i < p.len()
        invariant
            p@ == pat@,
            p@.len() <= s@.len(),
            i <= p@.len(),
            forall|k: int| 0 <= k < i ==> s@[k] == p@[k],
        decreases p@.len() - i,
    {
        if s[i] != p[i] {
            assert(s@.subrange(0, p@.len() as int)[i as int] != p@[i as int]);
            return false;
        }
        i += 1;
    }
    assert(p@ =~= s@.subrange(0, p@.len() as int));
    true
}

/// `pat` occurs in `s`.
pub open spec fn contains(s: Seq<char>, pat: Seq<char>) -> bool {
    exists|i: int| 0 <= i <= s.len() - pat.len() && #[trigger] s.subrange(i, i + pat.len()) == pat
}

/// `s` with every `c` removed.
pub open spec fn remove_char(s: Seq<char>, c: char) -> Seq<char> {
    s.filter(|x: char| x != c)
}

/// `s` with every `a` replaced by `b`.
pub open spec fn replace_char(s: Seq<char>, a: char, b: char) -> Seq<char> {
    s.map_values(|x: char| if x == a { b } else { x })
}

/// The ASCII lower-case form of a character.
pub open spec fn lower(c: char) -> char {
    if 'A' <= c && c <= 'Z' {
        ((c as u32) + 32) as char
    } else {
        c
    }
}

/// The ASCII lower-case form of a text.
pub open spec fn ascii_lower(s: Seq<char>) -> Seq<char> {
    s.map_values(|x: char| lower(x))
}

/// The two texts are equal.
pub fn eq_chars(a: &[char], b: &[char]) -> (r: bool)
    ensures
        r == (a@ == b@),
{
    if a.len() != b.len() {
        return false;
    }
    let mut i: usize = 0;
    while i < a.len()
        invariant
            i <= a@.len() == b@.len(),
            forall|k: int| 0 <= k < i ==> a@[k] == b@[k],
        decreases a@.len() - i,
    {
        if a[i] != b[i] {
            return false;
        }
        i += 1;
    }
    assert(a@ =~= b@);
    true
}

/// The text equals the literal `b`.
pub fn eq_str(a: &[char], b: &str) -> (r: bool)
    ensures
        r == (a@ == b@),
{
    let bc = chars_of(b);
    eq_chars(a, bc.as_slice())
}

/// `pat` occurs in `s`.
pub fn contains_chars(s: &[char], pat: &[char]) -> (r: bool)
    ensures
        r == contains(s@, pat@),
{
    if pat.len() > s.len() {
        return false;
    }
    let n = s.len();
    let last = n - pat.len();
    let mut i: usize = 0;
    while i <= last
        invariant
            last == s@.len() - pat@.len(),
            pat@.len() <= s@.len(),
            n == s@.len(),
            i <= last,
            forall|k: int| 0 <= k < i ==> #[trigger] s@.subrange(k, k + pat@.len()) != pat@,
        decreases last + 1 - i,
    {
        let mut j: usize = 0;
        let mut same = true;
        while j < pat.len()
            invariant
                i <= last,
                last == s@.len() - pat@.len(),
                pat@.len() <= s@.len(),
                n == s@.len(),
                j <= pat@.len(),
                same == (forall|k: int| 0 <= k < j ==> s@[i + k] == pat@[k]),
            decreases pat@.len() - j,
        {
            if s[i + j] != pat[j] {
                same = false;
            }
            j += 1;
        }
        if same {
            assert(s@.subrange(i as int, i + pat@.len()) =~= pat@);
            return true;
        }
        assert(s@[i + (choose|k: int| 0 <= k < pat@.len() && s@[i + k] != pat@[k])] != pat@[(choose|k: int| 0 <= k < pat@.len() && s@[i + k] != pat@[k])]);
        assert(s@.subrange(i as int, i + pat@.len()) != pat@);
        if i == last {
            return false;
        }
        i += 1;
    }
    false
}

/// The literal `pat` occurs in `s`.
pub fn contains_str(s: &[char], pat: &str) -> (r: bool)
    ensures
        r == contains(s@, pat@),
{
    let pc = chars_of(pat);
    contains_chars(s, pc.as_slice())
}

/// `s` with every `c` removed.
pub fn remove_char_chars(s: &[char], c: char) -> (v: Vec<char>)
    ensures
        v@ == remove_char(s@, c),
{
    let mut v: Vec<char> = Vec::new();
    let mut i: usize = 0;
    while i < s.len()
        invariant
            i <= s@.len(),
            v@ == remove_char(s@.take(i as int), c),
        decreases s@.len() - i,
    {
        proof {
            assert(s@.take(i + 1).drop_last() =~= s@.take(i as int));
            assert(s@.take(i + 1).last() == s@[i as int]);
            reveal_with_fuel(Seq::filter, 1);
        }
        if s[i] != c {
            v.push(s[i]);
        }
        i += 1;
    }
    assert(s@.take(s@.len() as int) =~= s@);
    v
}

/// `s` with every `a` replaced by `b`.
pub fn replace_char_chars(s: &[char], a: char, b: char) -> (v: Vec<char>)
    ensures
        v@ == replace_char(s@, a, b),
{
    let mut v: Vec<char> = Vec::new();
    let mut i: usize = 0;
    while i < s.len()
        invariant
            i <= s@.len(),
            v@ =~= replace_char(s@.take(i as int), a, b),
        decreases s@.len() - i,
    {
        if s[i] == a {
            v.push(b);
        } else {
            v.push(s[i]);
        }
        i += 1;
    }
    assert(s@.take(s@.len() as int) =~= s@);
    v
}

fn lower_char(c: char) -> (r: char)
    ensures
        r == lower(c),
{
    if 'A' <= c && c <= 'Z' {
        let code: u8 = (c as u8) + 32;
        code as char
    } else {
        c
    }
}

/// The ASCII lower-case form of `s`.
pub fn ascii_lower_chars(s: &[char]) -> (v: Vec<char>)
    ensures
        v@ == ascii_lower(s@),
{
    let mut v: Vec<char> = Vec::new();
    let mut i: usize = 0;
    while i < s.len()
        invariant
            i <= s@.len(),
            v@ =~= ascii_lower(s@.take(i as int)),
        decreases s@.len() - i,
    {
        let l = lower_char(s[i]);
        v.push(l);
        i += 1;
    }
    assert(s@.take(s@.len() as int) =~= s@);
    v
}


/// A decimal digit.
pub open spec fn is_digit(c: char) -> bool {
    '0' <= c && c <= '9'
}

/// The value of a decimal digit.
pub open spec fn digit_value(c: char) -> nat {
    ((c as int) - ('0' as int)) as nat
}

/// The character of a decimal digit.
pub open spec fn digit_char(d: nat) -> char {
    ((d + 48) as u8) as char
}

/// The value of a run of decimal digits, most significant first.
pub open spec fn digits_value(s: Seq<char>) -> nat
    decreases s.len(),
{
    if s.len() == 0 {
        0
    } else {
        digits_value(s.drop_last()) * 10 + digit_value(s.last())
    }
}

/// The text without one leading `+`.
pub open spec fn unsigned_body(s: Seq<char>) -> Seq<char> {
    if s.len() > 0 && s[0] == '+' {
        s.drop_first()
    } else {
        s
    }
}

/// What `str::parse` gives for an unsigned integer type whose largest value is `max`:
/// an optional `+`, then one digit or more, and a value no larger than `max`.
pub open spec fn parse_unsigned(s: Seq<char>, max: nat) -> Option<nat> {
    let b = unsigned_body(s);
    if b.len() > 0 && (forall|i: int| 0 <= i < b.len() ==> is_digit(#[trigger] b[i]))
        && digits_value(b) <= max {
        Some(digits_value(b))
    } else {
        None
    }
}

/// The decimal form of `n`, as `to_string` gives it for an unsigned integer.
pub open spec fn decimal(n: nat) -> Seq<char>
    decreases n,
{
    if n < 10 {
        seq![digit_char(n)]
    } else {
        decimal(n / 10).push(digit_char(n % 10))
    }
}

proof fn lemma_digits_value_prefix(s: Seq<char>, k: int)
    requires
        0 <= k <= s.len(),
    ensures
        digits_value(s.take(k)) <= digits_value(s),
    decreases s.len(),
{
    if k < s.len() {
        lemma_digits_value_prefix(s.drop_last(), k);
        assert(s.drop_last().take(k) =~= s.take(k));
    } else {
        assert(s.take(k) =~= s);
    }
}

fn parse_bounded(s: &[char], max: u64) -> (r: Option<u64>)
    requires
        max <= u32::MAX,
    ensures
        match r {
            Some(v) => parse_unsigned(s@, max as nat) == Some(v as nat),
            None => parse_unsigned(s@, max as nat) is None,
        },
{
    let n = s.len();
    let start: usize = if n > 0 && s[0] == '+' {
        1
    } else {
        0
    };
    let ghost b = unsigned_body(s@);
    assert(b =~= s@.subrange(start as int, n as int));
    if start == n {
        return None;
    }
    let mut v: u64 = 0;
    let mut i = start;
    while i < n
        invariant
            start <= i <= n == s@.len(),
            start < n,
            b == s@.subrange(start as int, n as int),
            b == unsigned_body(s@),
            max <= u32::MAX,
            forall|k: int| 0 <= k < i - start ==> is_digit(#[trigger] b[k]),
            v == digits_value(b.take(i - start)),
            v <= max,
        decreases n - i,
    {
        let c = s[i];
        if !('0' <= c && c <= '9') {
            assert(!is_digit(b[i - start]));
            assert(!(forall|k: int| 0 <= k < b.len() ==> is_digit(#[trigger] b[k])));
            assert(parse_unsigned(s@, max as nat) is None);
            return None;
        }
        let d: u64 = (c as u64) - ('0' as u64);
        proof {
            assert(b.take(i - start + 1).drop_last() =~= b.take(i - start));
            assert(b.take(i - start + 1).last() == b[i - start]);
        }
        let next = v * 10 + d;
        if next > max {
            proof {
                assert(digit_value(c) == d);
                assert(digits_value(b.take(i - start + 1)) == next);
                if forall|k: int| 0 <= k < b.len() ==> is_digit(#[trigger] b[k]) {
                    lemma_digits_value_prefix(b, i - start + 1);
                }
                assert(parse_unsigned(s@, max as nat) is None);
            }
            return None;
        }
        v = next;
        i += 1;
    }
    assert(b.take(n - start) =~= b);
    Some(v)
}

/// What `str::parse::<u8>` gives.
pub fn parse_u8_chars(s: &[char]) -> (r: Option<u8>)
    ensures
        match r {
            Some(v) => parse_unsigned(s@, 255) == Some(v as nat),
            None => parse_unsigned(s@, 255) is None,
        },
{
    match parse_bounded(s, 255) {
        Some(v) => Some(v as u8),
        None => None,
    }
}

/// What `str::parse::<u32>` gives.
pub fn parse_u32_chars(s: &[char]) -> (r: Option<u32>)
    ensures
        match r {
            Some(v) => parse_unsigned(s@, u32::MAX as nat) == Some(v as nat),
            None => parse_unsigned(s@, u32::MAX as nat) is None,
        },
{
    match parse_bounded(s, 0xffff_ffff) {
        Some(v) => Some(v as u32),
        None => None,
    }
}

/// The decimal form of `n`.
pub fn decimal_chars(n: u32) -> (v: Vec<char>)
    ensures
        v@ == decimal(n as nat),
    decreases n,
{
    let d: u8 = (n % 10) as u8;
    let c: char = (48u8 + d) as char;
    if n < 10 {
        let mut v: Vec<char> = Vec::new();
        v.push(c);
        assert(v@ =~= seq![digit_char(n as nat)]);
        v
    } else {
        let mut v = decimal_chars(n / 10);
        v.push(c);
        v
    }
}


/// The lines of a text, each split into at most `n` fields at `:`.
pub open spec fn split_rows(ls: Seq<Seq<char>>, n: nat) -> Seq<Seq<Seq<char>>> {
    ls.map_values(|l: Seq<char>| splitn(l, n, ':'))
}

/// Filtering a prefix gives a prefix of the filtered whole.
/// Filtering by a predicate that holds of every item keeps the sequence.
pub proof fn lemma_filter_all<A>(s: Seq<A>, p: spec_fn(A) -> bool)
    requires
        forall|x: A| #[trigger] p(x),
    ensures
        s.filter(p) == s,
    decreases s.len(),
{
    if s.len() == 0 {
        s.lemma_filter_len(p);
        assert(s.filter(p) =~= s);
    } else {
        let t = s.drop_last();
        assert(s =~= t.push(s.last()));
        lemma_filter_all(t, p);
        t.lemma_filter_push(s.last(), p);
    }
}

/// Where `r` holds exactly when one of the exclusive `p` and `q` holds, the
/// items kept by `r` are those kept by `p` and those kept by `q`, counted
/// with their repetitions.
pub proof fn lemma_filter_partition<A>(
    s: Seq<A>,
    r: spec_fn(A) -> bool,
    p: spec_fn(A) -> bool,
    q: spec_fn(A) -> bool,
)
    requires
        forall|x: A| #[trigger] r(x) == (p(x) || q(x)),
        forall|x: A| !(#[trigger] p(x) && q(x)),
    ensures
        s.filter(r).to_multiset() == s.filter(p).to_multiset().add(s.filter(q).to_multiset()),
    decreases s.len(),
{
    broadcast use {
        vstd::seq_lib::group_to_multiset_ensures,
        vstd::multiset::group_multiset_axioms,
        vstd::multiset::lemma_multiset_empty_len,
    };

    if s.len() == 0 {
        s.lemma_filter_len(r);
        s.lemma_filter_len(p);
        s.lemma_filter_len(q);
        assert(s.filter(r) =~= s);
        assert(s.filter(p) =~= s);
        assert(s.filter(q) =~= s);
        assert(s.to_multiset().len() == 0);
        assert(s.to_multiset().add(s.to_multiset()) =~= s.to_multiset());
    } else {
        let t = s.drop_last();
        let x = s.last();
        assert(s =~= t.push(x));
        lemma_filter_partition(t, r, p, q);
        t.lemma_filter_push(x, r);
        t.lemma_filter_push(x, p);
        t.lemma_filter_push(x, q);
        assert(s.filter(r).to_multiset() =~= s.filter(p).to_multiset().add(s.filter(q).to_multiset()));
    }
}

pub proof fn lemma_filter_take<A>(s: Seq<A>, p: spec_fn(A) -> bool, k: int)
    requires
        0 <= k <= s.len(),
    ensures
        s.take(k).filter(p).len() <= s.filter(p).len(),
        s.filter(p).take(s.take(k).filter(p).len() as int) == s.take(k).filter(p),
    decreases s.len(),
{
    if k == s.len() {
        assert(s.take(k) =~= s);
        assert(s.filter(p).take(s.filter(p).len() as int) =~= s.filter(p));
    } else {
        lemma_filter_take(s.drop_last(), p, k);
        assert(s.drop_last().take(k) =~= s.take(k));
        reveal_with_fuel(Seq::filter, 1);
        let a = s.drop_last().filter(p);
        let t = s.take(k).filter(p);
        if p(s.last()) {
            assert(s.filter(p) == a.push(s.last()));
            assert(a.push(s.last()).take(t.len() as int) =~= a.take(t.len() as int));
        } else {
            assert(s.filter(p) == a);
        }
    }
}

/// Filtering one more element.
pub proof fn lemma_filter_take_next<A>(s: Seq<A>, p: spec_fn(A) -> bool, k: int)
    requires
        0 <= k < s.len(),
    ensures
        s.take(k + 1).filter(p) == (if p(s[k]) {
            s.take(k).filter(p).push(s[k])
        } else {
            s.take(k).filter(p)
        }),
{
    reveal_with_fuel(Seq::filter, 1);
    assert(s.take(k + 1).drop_last() =~= s.take(k));
    assert(s.take(k + 1).last() == s[k]);
}


/// The rows held by a vector of split lines.
pub open spec fn rows_of(v: Seq<Vec<Vec<char>>>) -> Seq<Seq<Seq<char>>> {
    v.map_values(|r: Vec<Vec<char>>| seqs(r@))
}

/// Rows whose field `i` is not `value`.
pub open spec fn field_is_not(i: int, value: Seq<char>) -> spec_fn(Seq<Seq<char>>) -> bool {
    |p: Seq<Seq<char>>| piece(p, i) != value
}

/// Rows whose field `i` is `a` or `b`.
pub open spec fn field_is_either(i: int, a: Seq<char>, b: Seq<char>) -> spec_fn(Seq<Seq<char>>) -> bool {
    |p: Seq<Seq<char>>| piece(p, i) == a || piece(p, i) == b
}

/// A copy of a text.
pub fn copy_chars(s: &Vec<char>) -> (v: Vec<char>)
    ensures
        v@ == s@,
{
    assert(s@.subrange(0, s@.len() as int) =~= s@);
    slice_of(s.as_slice(), 0, s.len())
}

/// The lines split into at most `n` fields, keeping the rows whose field
/// `field` is not `value`.
pub fn rows_without(ls: &Vec<Vec<char>>, n: usize, field: usize, value: &str) -> (rows: Vec<Vec<Vec<char>>>)
    requires
        n >= 1,
    ensures
        rows_of(rows@) == split_rows(seqs(ls@), n as nat).filter(field_is_not(field as int, value@)),
{
    let ghost m = split_rows(seqs(ls@), n as nat);
    let mut rows: Vec<Vec<Vec<char>>> = Vec::new();
    let mut i: usize = 0;
    while i < ls.len()
        invariant
            n >= 1,
            m == split_rows(seqs(ls@), n as nat),
            i <= ls@.len(),
            rows_of(rows@) == m.take(i as int).filter(field_is_not(field as int, value@)),
        decreases ls@.len() - i,
    {
        let p = splitn_chars(ls[i].as_slice(), n, ':');
        proof {
            lemma_filter_take_next(m, field_is_not(field as int, value@), i as int);
            assert(seqs(p@) == m[i as int]);
        }
        let f = piece_of(&p, field);
        if !eq_str(f.as_slice(), value) {
            let ghost before = rows@;
            rows.push(p);
            proof {
                assert(rows_of(rows@) =~= rows_of(before).push(seqs(p@)));
            }
        }
        i += 1;
    }
    assert(m.take(ls@.len() as int) =~= m);
    rows
}

/// Some line of `ls` is `s`.
pub fn has_line(ls: &Vec<Vec<char>>, s: &[char]) -> (r: bool)
    ensures
        r == seqs(ls@).contains(s@),
{
    let mut i: usize = 0;
    while i < ls.len()
        invariant
            i <= ls@.len(),
            forall|k: int| 0 <= k < i ==> seqs(ls@)[k] != s@,
        decreases ls@.len() - i,
    {
        if eq_chars(ls[i].as_slice(), s) {
            assert(seqs(ls@)[i as int] == s@);
            return true;
        }
        i += 1;
    }
    false
}


/// The first row from index `i` on whose field `field` is `value`.
pub open spec fn first_row_with(rows: Seq<Seq<Seq<char>>>, field: int, value: Seq<char>, i: int) -> Option<int>
    decreases rows.len() - i,
{
    if i < 0 || i >= rows.len() {
        None
    } else if piece(rows[i], field) == value {
        Some(i)
    } else {
        first_row_with(rows, field, value, i + 1)
    }
}

pub proof fn lemma_first_row_with_bounds(rows: Seq<Seq<Seq<char>>>, field: int, value: Seq<char>, i: int)
    ensures
        first_row_with(rows, field, value, i) matches Some(k) ==> 0 <= i <= k < rows.len() && piece(rows[k], field) == value,
    decreases rows.len() - i,
{
    if 0 <= i < rows.len() {
        lemma_first_row_with_bounds(rows, field, value, i + 1);
    }
}

/// The lines of `out`, each split into at most `n` fields at `:`.
pub fn rows_of_lines(ls: &Vec<Vec<char>>, n: usize) -> (rows: Vec<Vec<Vec<char>>>)
    requires
        n >= 1,
    ensures
        rows_of(rows@) == split_rows(seqs(ls@), n as nat),
{
    let mut rows: Vec<Vec<Vec<char>>> = Vec::new();
    let mut i: usize = 0;
    while i < ls.len()
        invariant
            n >= 1,
            i <= ls@.len(),
            rows_of(rows@) == split_rows(seqs(ls@), n as nat).take(i as int),
        decreases ls@.len() - i,
    {
        let p = splitn_chars(ls[i].as_slice(), n, ':');
        assert(seqs(p@) == split_rows(seqs(ls@), n as nat)[i as int]);
        let ghost before = rows@;
        rows.push(p);
        assert(rows_of(rows@) =~= rows_of(before).push(seqs(p@)));
        i += 1;
        assert(rows_of(rows@) =~= split_rows(seqs(ls@), n as nat).take(i as int));
    }
    assert(split_rows(seqs(ls@), n as nat).take(ls@.len() as int) =~= split_rows(seqs(ls@), n as nat));
    rows
}

/// The index of the first row whose field `field` is `value`.
pub fn find_row_with(rows: &Vec<Vec<Vec<char>>>, field: usize, value: &str) -> (r: Option<usize>)
    ensures
        match r {
            Some(k) => first_row_with(rows_of(rows@), field as int, value@, 0) == Some(k as int) && k < rows@.len(),
            None => first_row_with(rows_of(rows@), field as int, value@, 0) is None,
        },
{
    let ghost rv = rows_of(rows@);
    let mut i: usize = 0;
    while i < rows.len()
        invariant
            rv == rows_of(rows@),
            i <= rows@.len(),
            first_row_with(rv, field as int, value@, 0) == first_row_with(rv, field as int, value@, i as int),
        decreases rows@.len() - i,
    {
        let f = piece_of(&rows[i], field);
        if eq_str(f.as_slice(), value) {
            return Some(i);
        }
        i += 1;
    }
    None
}


/// The first place from `i` on where `pat` occurs in `s`, or -1.
pub open spec fn find_from(s: Seq<char>, pat: Seq<char>, i: int) -> int
    decreases s.len() + 1 - i,
{
    if i < 0 || i + pat.len() > s.len() {
        -1
    } else if s.subrange(i, i + pat.len()) == pat {
        i
    } else {
        find_from(s, pat, i + 1)
    }
}

pub proof fn lemma_find_from_bounds(s: Seq<char>, pat: Seq<char>, i: int)
    ensures
        find_from(s, pat, i) == -1 || (0 <= i <= find_from(s, pat, i) && find_from(s, pat, i) + pat.len()
            <= s.len()),
    decreases s.len() + 1 - i,
{
    if 0 <= i && i + pat.len() <= s.len() {
        lemma_find_from_bounds(s, pat, i + 1);
    }
}

/// Splits `s` at each occurrence of `pat`, left to right, as `str::split`
/// does with a text pattern.
pub open spec fn split_pat(s: Seq<char>, pat: Seq<char>) -> Seq<Seq<char>>
    decreases s.len(),
{
    if pat.len() == 0 {
        seq![s]
    } else {
        let j = find_from(s, pat, 0);
        if j < 0 {
            seq![s]
        } else {
            proof {
                lemma_find_from_bounds(s, pat, 0);
            }
            seq![s.take(j)] + split_pat(s.skip(j + pat.len()), pat)
        }
    }
}

/// Where `pat` first occurs in `s`.
pub fn find_chars(s: &[char], pat: &[char]) -> (r: Option<usize>)
    ensures
        match r {
            Some(j) => find_from(s@, pat@, 0) == j as int,
            None => find_from(s@, pat@, 0) == -1,
        },
{
    let n = s.len();
    let m = pat.len();
    if m > n {
        return None;
    }
    let mut i: usize = 0;
    while i <= n - m
        invariant
            n == s@.len(),
            m == pat@.len(),
            m <= n,
            i <= n - m + 1,
            find_from(s@, pat@, 0) == find_from(s@, pat@, i as int),
        decreases n - m + 1 - i,
    {
        let mut j: usize = 0;
        let mut same = true;
        while j < m
            invariant
                n == s@.len(),
                m == pat@.len(),
                i + m <= n,
                j <= m,
                same == (forall|k: int| 0 <= k < j ==> s@[i + k] == pat@[k]),
            decreases m - j,
        {
            if s[i + j] != pat[j] {
                same = false;
            }
            j += 1;
        }
        if same {
            assert(s@.subrange(i as int, i + m) =~= pat@);
            return Some(i);
        }
        assert(s@[i + (choose|k: int| 0 <= k < m && s@[i + k] != pat@[k])] != pat@[(choose|k: int| 0 <= k < m && s@[i + k] != pat@[k])]);
        assert(s@.subrange(i as int, i + m) != pat@);
        if i == n - m {
            assert(find_from(s@, pat@, i + 1) == -1);
            return None;
        }
        i += 1;
    }
    None
}

/// The pieces of `s` between occurrences of `pat`.
pub fn split_pat_chars(s: &[char], pat: &[char]) -> (parts: Vec<Vec<char>>)
    requires
        pat@.len() > 0,
    ensures
        seqs(parts@) == split_pat(s@, pat@),
{
    let mut parts: Vec<Vec<char>> = Vec::new();
    let mut rest: Vec<char> = slice_of(s, 0, s.len());
    assert(s@.subrange(0, s@.len() as int) =~= s@);
    loop
        invariant
            pat@.len() > 0,
            split_pat(s@, pat@) == seqs(parts@) + split_pat(rest@, pat@),
        decreases rest@.len(),
    {
        match find_chars(rest.as_slice(), pat) {
            None => {
                let ghost before = seqs(parts@);
                let last = rest;
                parts.push(last);
                assert(seqs(parts@) =~= before.push(last@));
                assert(seqs(parts@) =~= before + seq![last@]);
                return parts;
            },
            Some(j) => {
                proof {
                    lemma_find_from_bounds(rest@, pat@, 0);
                    assert(find_from(rest@, pat@, 0) == j as int);
                    assert(j + pat@.len() <= rest@.len());
                }
                let rl = rest.len();
                let pl = pat.len();
                assert(j + pl <= rl);
                let head = slice_of(rest.as_slice(), 0, j);
                let tail = slice_of(rest.as_slice(), j + pl, rl);
                let ghost before = seqs(parts@);
                proof {
                    assert(head@ =~= rest@.take(j as int));
                    assert(tail@ =~= rest@.skip(j + pat@.len()));
                    assert(split_pat(rest@, pat@) == seq![head@] + split_pat(tail@, pat@));
                }
                parts.push(head);
                assert(seqs(parts@) =~= before.push(head@));
                assert(seqs(parts@) + split_pat(tail@, pat@) =~= before + (seq![head@] + split_pat(tail@, pat@)));
                rest = tail;
            },
        }
    }
}


/// A copy of a split line.
pub fn rows_copy(r: &Vec<Vec<char>>) -> (c: Vec<Vec<char>>)
    ensures
        seqs(c@) == seqs(r@),
{
    let mut c: Vec<Vec<char>> = Vec::new();
    let mut i: usize = 0;
    while i < r.len()
        invariant
            i <= r@.len(),
            seqs(c@) == seqs(r@).take(i as int),
        decreases r@.len() - i,
    {
        let x = copy_chars(&r[i]);
        let ghost before = c@;
        c.push(x);
        i += 1;
        assert(seqs(c@) =~= seqs(before).push(x@));
        assert(seqs(c@) =~= seqs(r@).take(i as int));
    }
    assert(seqs(r@).take(r@.len() as int) =~= seqs(r@));
    c
}


/// The map that a list of (key, value) pairs stands for: later pairs win.
pub open spec fn pairs_map(p: Seq<(Seq<char>, Seq<char>)>) -> Map<Seq<char>, Seq<char>>
    decreases p.len(),
{
    if p.len() == 0 {
        Map::empty()
    } else {
        pairs_map(p.drop_last()).insert(p.last().0, p.last().1)
    }
}

/// The text of (key, value) pairs.
pub open spec fn pairs_view(p: Seq<(Vec<char>, Vec<char>)>) -> Seq<(Seq<char>, Seq<char>)> {
    p.map_values(|x: (Vec<char>, Vec<char>)| (x.0@, x.1@))
}

/// The value that the pairs give `ssid`, where there is one.
pub fn lookup(pairs: &Vec<(Vec<char>, Vec<char>)>, ssid: &[char]) -> (r: Option<Vec<char>>)
    ensures
        match r {
            Some(n) => pairs_map(pairs_view(pairs@)).contains_key(ssid@) && pairs_map(pairs_view(pairs@))[ssid@] == n@,
            None => !pairs_map(pairs_view(pairs@)).contains_key(ssid@),
        },
{
    let ghost pv = pairs_view(pairs@);
    let mut i: usize = pairs.len();
    assert(pv.take(i as int) =~= pv);
    while i > 0
        invariant
            pv == pairs_view(pairs@),
            i <= pairs@.len(),
            pairs_map(pv).contains_key(ssid@) == pairs_map(pv.take(i as int)).contains_key(ssid@),
            pairs_map(pv).contains_key(ssid@) ==> pairs_map(pv)[ssid@] == pairs_map(pv.take(i as int))[ssid@],
        decreases i,
    {
        proof {
            assert(pv.take(i as int).drop_last() =~= pv.take(i - 1));
            assert(pv.take(i as int).last() == pv[i - 1]);
        }
        if eq_chars(pairs[i - 1].0.as_slice(), ssid) {
            let n = crate::text::copy_chars(&pairs[i - 1].1);
            return Some(n);
        }
        i -= 1;
    }
    assert(pv.take(0) =~= Seq::<(Seq<char>, Seq<char>)>::empty());
    None
}


/// The map of a list of pairs holds a key exactly when some pair has it, and
/// gives it the value of the last pair that has it.
pub proof fn lemma_pairs_map_last(p: Seq<(Seq<char>, Seq<char>)>, k: Seq<char>)
    ensures
        pairs_map(p).contains_key(k) <==> exists|i: int| 0 <= i < p.len() && (#[trigger] p[i]).0 == k,
        forall|i: int|
            0 <= i < p.len() && (#[trigger] p[i]).0 == k && (forall|j: int| i < j < p.len() ==> p[j].0 != k)
                ==> pairs_map(p)[k] == p[i].1,
        pairs_map(p).contains_key(k) ==> exists|i: int|
            0 <= i < p.len() && (#[trigger] p[i]).0 == k && pairs_map(p)[k] == p[i].1,
    decreases p.len(),
{
    if p.len() > 0 {
        let q = p.drop_last();
        lemma_pairs_map_last(q, k);
        if p.last().0 == k {
            assert(p[p.len() - 1].0 == k);
        } else {
            if pairs_map(q).contains_key(k) {
                let i = choose|i: int| 0 <= i < q.len() && (#[trigger] q[i]).0 == k && pairs_map(q)[k] == q[i].1;
                assert(p[i] == q[i]);
            }
            assert forall|i: int| 0 <= i < p.len() && (#[trigger] p[i]).0 == k implies i < q.len() && q[i] == p[i] by {}
            if exists|i: int| 0 <= i < p.len() && (#[trigger] p[i]).0 == k {
                let i = choose|i: int| 0 <= i < p.len() && (#[trigger] p[i]).0 == k;
                assert(q[i].0 == k);
            }
            if exists|i: int| 0 <= i < q.len() && (#[trigger] q[i]).0 == k {
                let i = choose|i: int| 0 <= i < q.len() && (#[trigger] q[i]).0 == k;
                assert(p[i].0 == k);
            }
            assert forall|i: int|
                0 <= i < p.len() && (#[trigger] p[i]).0 == k && (forall|j: int| i < j < p.len() ==> p[j].0 != k)
                    implies pairs_map(p)[k] == p[i].1 by {
                assert(q[i] == p[i]);
                assert forall|j: int| i < j < q.len() implies q[j].0 != k by {
                    assert(q[j] == p[j]);
                }
            }
        }
    }
}

} // verus!
