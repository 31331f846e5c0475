//! Character sequences: trimming, splitting, searching and ASCII case.
//!
//! Strings are handled as sequences of characters (`Seq<char>` in contracts,
//! slices of `char` in code).

use vstd::prelude::*;

verus! {

/// `String::push` appends one character and changes nothing else.
pub assume_specification[ String::push ](s: &mut String, c: char)
    ensures
        final(s)@ == old(s)@.push(c),
;

/// A set of characters that can be trimmed away.
#[derive(Clone, Copy)]
pub enum CharClass {
    /// Unicode white space.
    White,
    /// One single character.
    Only(char),
    /// The slash and the backslash.
    Slash,
}

/// The characters with the Unicode property `White_Space`.
pub open spec fn is_white_space(c: char) -> bool {
    let u = c as u32;
    ||| 0x09 <= u <= 0x0d
    ||| u == 0x20
    ||| u == 0x85
    ||| u == 0xa0
    ||| u == 0x1680
    ||| 0x2000 <= u <= 0x200a
    ||| u == 0x2028
    ||| u == 0x2029
    ||| u == 0x202f
    ||| u == 0x205f
    ||| u == 0x3000
}

pub open spec fn is_digit(c: char) -> bool {
    '0' <= c <= '9'
}

pub open spec fn is_alphanumeric(c: char) -> bool {
    ||| '0' <= c <= '9'
    ||| 'a' <= c <= 'z'
    ||| 'A' <= c <= 'Z'
}

impl CharClass {
    pub open spec fn has(self, c: char) -> bool {
        match self {
            CharClass::White => is_white_space(c),
            CharClass::Only(only) => c == only,
            CharClass::Slash => c == '/' || c == '\\',
        }
    }

    pub fn contains(self, c: char) -> (res: bool)
        ensures
            res == self.has(c),
    {
        match self {
            CharClass::White => white_space(c),
            CharClass::Only(only) => c == only,
            CharClass::Slash => c == '/' || c == '\\',
        }
    }
}

/// Whether a character is Unicode white space.
pub fn white_space(c: char) -> (res: bool)
    ensures
        res == is_white_space(c),
{
    let u = c as u32;
    (0x09 <= u && u <= 0x0d) || u == 0x20 || u == 0x85 || u == 0xa0 || u == 0x1680 || (0x2000 <= u
        && u <= 0x200a) || u == 0x2028 || u == 0x2029 || u == 0x202f || u == 0x205f || u == 0x3000
}

/// The characters of a string, in order.
pub fn chars_of(s: &str) -> (out: Vec<char>)
    ensures
        out@ == s@,
{
    let mut out: Vec<char> = Vec::new();
    for c in it: s.chars()
        invariant
            out@ == it.seq().take(it.index()),
            it.seq() == s@,
    {
        out.push(c);
    }
    out
}

/// The string made of the given characters.
pub fn string_of(s: &[char]) -> (out: String)
    ensures
        out@ == s@,
{
    let mut out = String::new();
    for i in 0..s.len()
        invariant
            out@ == s@.take(i as int),
    {
        out.push(s[i]);
    }
    out
}

/// A copy of a character slice.
pub fn copy_chars(s: &[char]) -> (out: Vec<char>)
    ensures
        out@ == s@,
{
    let mut out: Vec<char> = Vec::new();
    for i in 0..s.len()
        invariant
            out@ == s@.take(i as int),
    {
        out.push(s[i]);
    }
    out
}

/// Appends the characters of `piece` to `out`.
pub fn append_chars(out: &mut String, piece: &[char])
    ensures
        final(out)@ == old(out)@ + piece@,
{
    for i in 0..piece.len()
        invariant
            out@ == old(out)@ + piece@.take(i as int),
    {
        out.push(piece[i]);
    }
    assert(piece@.take(piece@.len() as int) == piece@);
}

/// Whether two character slices hold the same text.
pub fn same_chars(a: &[char], b: &[char]) -> (res: bool)
    ensures
        res == (a@ == b@),
{
    if a.len() != b.len() {
        return false;
    }
    for i in 0..a.len()
        invariant
            a@.len() == b@.len(),
            forall|j: int| 0 <= j < i ==> a@[j] == b@[j],
    {
        if a[i] != b[i] {
            return false;
        }
    }
    assert(a@ == b@);
    true
}

/// Whether a character slice holds exactly the text of `lit`.
pub fn equals_str(a: &[char], lit: &str) -> (res: bool)
    ensures
        res == (a@ == lit@),
{
    let b = chars_of(lit);
    same_chars(a, &b)
}

/// Whether two strings hold the same text.
pub fn same_text(a: &str, b: &str) -> (res: bool)
    ensures
        res == (a@ == b@),
{
    let a = chars_of(a);
    let b = chars_of(b);
    same_chars(&a, &b)
}

// ---------------------------------------------------------------------------
// Trimming
// ---------------------------------------------------------------------------

/// `s` without its longest prefix made of characters of `class`.
pub open spec fn trim_start(s: Seq<char>, class: CharClass) -> Seq<char>
    decreases s.len(),
{
    if s.len() > 0 && class.has(s[0]) {
        trim_start(s.skip(1), class)
    } else {
        s
    }
}

/// `s` without its longest suffix made of characters of `class`.
pub open spec fn trim_end(s: Seq<char>, class: CharClass) -> Seq<char>
    decreases s.len(),
{
    if s.len() > 0 && class.has(s.last()) {
        trim_end(s.drop_last(), class)
    } else {
        s
    }
}

/// `s` without the characters of `class` at its two ends.
pub open spec fn trim_both(s: Seq<char>, class: CharClass) -> Seq<char> {
    trim_end(trim_start(s, class), class)
}

/// `s` without white space at its two ends.
pub open spec fn trim(s: Seq<char>) -> Seq<char> {
    trim_both(s, CharClass::White)
}

pub fn trim_start_slice(s: &[char], class: CharClass) -> (out: &[char])
    ensures
        out@ == trim_start(s@, class),
{
    let mut i: usize = 0;
    assert(s@.skip(0) == s@);
    while i < s.len() && class.contains(s[i])
        invariant
            i <= s@.len(),
            trim_start(s@, class) == trim_start(s@.skip(i as int), class),
        decreases s@.len() - i,
    {
        assert(s@.skip(i as int)[0] == s@[i as int]);
        assert(s@.skip(i as int).skip(1) == s@.skip(i + 1));
        i = i + 1;
    }
    assert(i < s@.len() ==> s@.skip(i as int)[0] == s@[i as int]);
    assert(s@.subrange(i as int, s@.len() as int) == s@.skip(i as int));
    &s[i..s.len()]
}

pub fn trim_end_slice(s: &[char], class: CharClass) -> (out: &[char])
    ensures
        out@ == trim_end(s@, class),
{
    let mut n: usize = s.len();
    assert(s@.take(n as int) == s@);
    while n > 0 && class.contains(s[n - 1])
        invariant
            n <= s@.len(),
            trim_end(s@, class) == trim_end(s@.take(n as int), class),
        decreases n,
    {
        assert(s@.take(n as int).last() == s@[n - 1]);
        assert(s@.take(n as int).drop_last() == s@.take(n - 1));
        n = n - 1;
    }
    assert(n > 0 ==> s@.take(n as int).last() == s@[n - 1]);
    assert(s@.subrange(0, n as int) == s@.take(n as int));
    &s[0..n]
}

pub fn trim_both_slice(s: &[char], class: CharClass) -> (out: &[char])
    ensures
        out@ == trim_both(s@, class),
{
    trim_end_slice(trim_start_slice(s, class), class)
}

pub fn trim_slice(s: &[char]) -> (out: &[char])
    ensures
        out@ == trim(s@),
{
    trim_both_slice(s, CharClass::White)
}

/// A trimmed copy of a string.
pub fn trimmed(s: &str) -> (out: Vec<char>)
    ensures
        out@ == trim(s@),
{
    let chars = chars_of(s);
    copy_chars(trim_slice(&chars))
}

/// Whether a string holds nothing but white space.
pub fn is_blank(s: &str) -> (res: bool)
    ensures
        res == (trim(s@).len() == 0),
{
    let chars = chars_of(s);
    trim_slice(&chars).len() == 0
}

/// Trimming leaves a text alone that has no character of the class at its ends.
pub proof fn lemma_trim_fixed(s: Seq<char>, class: CharClass)
    requires
        s.len() > 0 ==> !class.has(s[0]) && !class.has(s.last()),
    ensures
        trim_start(s, class) == s,
        trim_end(s, class) == s,
        trim_both(s, class) == s,
{
}

/// What trimming the start removes lies before what it keeps.
pub proof fn lemma_trim_start(s: Seq<char>, class: CharClass)
    ensures
        trim_start(s, class).len() <= s.len(),
        trim_start(s, class) == s.skip(s.len() - trim_start(s, class).len()),
        forall|i: int|
            0 <= i < s.len() - trim_start(s, class).len() ==> #[trigger] class.has(s[i]),
        trim_start(s, class).len() > 0 ==> !class.has(trim_start(s, class)[0]),
    decreases s.len(),
{
    if s.len() > 0 && class.has(s[0]) {
        let rest = s.skip(1);
        lemma_trim_start(rest, class);
        let n = s.len() - trim_start(s, class).len();
        assert(s.skip(n) == rest.skip(n - 1));
        assert forall|i: int| 0 <= i < n implies #[trigger] class.has(s[i]) by {
            if i > 0 {
                assert(class.has(rest[i - 1]));
            }
        }
    } else {
        assert(s.skip(0) == s);
    }
}

/// What trimming the end removes lies behind what it keeps.
pub proof fn lemma_trim_end(s: Seq<char>, class: CharClass)
    ensures
        trim_end(s, class).len() <= s.len(),
        trim_end(s, class) == s.take(trim_end(s, class).len() as int),
        forall|i: int| trim_end(s, class).len() <= i < s.len() ==> #[trigger] class.has(s[i]),
        trim_end(s, class).len() > 0 ==> !class.has(trim_end(s, class).last()),
    decreases s.len(),
{
    if s.len() > 0 && class.has(s.last()) {
        let init = s.drop_last();
        lemma_trim_end(init, class);
        let n = trim_end(s, class).len() as int;
        assert(s.take(n) == init.take(n));
        assert forall|i: int| n <= i < s.len() implies #[trigger] class.has(s[i]) by {
            if i < init.len() {
                assert(class.has(init[i]));
            }
        }
    } else {
        assert(s.take(s.len() as int) == s);
    }
}

/// The ends of a trimmed text lie outside the class.
pub proof fn lemma_trim_both_ends(s: Seq<char>, class: CharClass)
    ensures
        trim_both(s, class).len() <= s.len(),
        trim_both(s, class).len() > 0 ==> {
            &&& !class.has(trim_both(s, class)[0])
            &&& !class.has(trim_both(s, class).last())
        },
        trim_both(trim_both(s, class), class) == trim_both(s, class),
        exists|i: int|
            0 <= i <= i + trim_both(s, class).len() <= s.len() && trim_both(s, class)
                == #[trigger] s.subrange(i, i + trim_both(s, class).len()),
{
    let t = trim_start(s, class);
    lemma_trim_start(s, class);
    lemma_trim_end(t, class);
    let r = trim_both(s, class);
    if r.len() > 0 {
        assert(r[0] == t[0]);
    }
    lemma_trim_fixed(r, class);
    let i = s.len() - t.len();
    assert(r == s.subrange(i, i + r.len()));
}

// ---------------------------------------------------------------------------
// Searching and splitting
// ---------------------------------------------------------------------------

/// The index of the first `c` in `s`, or the length of `s` where there is none.
pub open spec fn index_of(s: Seq<char>, c: char) -> nat
    decreases s.len(),
{
    if s.len() == 0 || s[0] == c {
        0
    } else {
        1 + index_of(s.skip(1), c)
    }
}

pub proof fn lemma_index_of(s: Seq<char>, c: char)
    ensures
        index_of(s, c) <= s.len(),
        forall|i: int| 0 <= i < index_of(s, c) ==> s[i] != c,
        index_of(s, c) < s.len() ==> s[index_of(s, c) as int] == c,
    decreases s.len(),
{
    if s.len() > 0 && s[0] != c {
        let rest = s.skip(1);
        lemma_index_of(rest, c);
        assert forall|i: int| 0 <= i < index_of(s, c) implies s[i] != c by {
            if i > 0 {
                assert(rest[i - 1] != c);
            }
        }
    }
}

/// An index with no `c` before it, and `c` at it or the end there, is the first.
pub proof fn lemma_index_of_is(s: Seq<char>, c: char, i: int)
    requires
        0 <= i <= s.len(),
        forall|j: int| 0 <= j < i ==> s[j] != c,
        i < s.len() ==> s[i] == c,
    ensures
        index_of(s, c) == i,
{
    lemma_index_of(s, c);
    let k = index_of(s, c) as int;
    if k < i {
        assert(s[k] == c);
    } else if i < k {
        assert(s[i] != c);
    }
}

pub fn index_of_slice(s: &[char], c: char) -> (res: usize)
    ensures
        res == index_of(s@, c),
        res <= s@.len(),
{
    let mut i: usize = 0;
    while i < s.len() && s[i] != c
        invariant
            i <= s@.len(),
            forall|j: int| 0 <= j < i ==> s@[j] != c,
        decreases s@.len() - i,
    {
        i = i + 1;
    }
    proof {
        lemma_index_of_is(s@, c, i as int);
    }
    i
}

/// Whether a string holds the character `c`.
pub fn contains_char(s: &[char], c: char) -> (res: bool)
    ensures
        res == s@.contains(c),
{
    let i = index_of_slice(s, c);
    proof {
        lemma_index_of(s@, c);
        if i < s@.len() {
            assert(s@[i as int] == c);
        }
    }
    i < s.len()
}

/// The parts of `s` between the occurrences of `sep`.
pub open spec fn split(s: Seq<char>, sep: char) -> Seq<Seq<char>>
    decreases s.len(),
{
    let i = index_of(s, sep) as int;
    if i >= s.len() {
        seq![s]
    } else {
        seq![s.take(i)] + split(s.skip(i + 1), sep)
    }
}

/// The texts held by a sequence of character vectors.
pub open spec fn texts(parts: Seq<Vec<char>>) -> Seq<Seq<char>> {
    parts.map_values(|part: Vec<char>| part@)
}

/// The texts held by a sequence of strings.
pub open spec fn string_texts(parts: Seq<String>) -> Seq<Seq<char>> {
    parts.map_values(|part: String| part@)
}

pub fn split_slice(s: &[char], sep: char) -> (out: Vec<Vec<char>>)
    ensures
        texts(out@) == split(s@, sep),
        out@.len() >= 1,
{
    let mut out: Vec<Vec<char>> = Vec::new();
    let mut from: usize = 0;
    assert(s@.skip(0) == s@);
    loop
        invariant
            from <= s@.len(),
            texts(out@) + split(s@.skip(from as int), sep) == split(s@, sep),
        decreases s@.len() - from,
    {
        let rest = &s[from..s.len()];
        assert(rest@ == s@.skip(from as int));
        let i = index_of_slice(rest, sep);
        proof {
            lemma_index_of(rest@, sep);
        }
        let ghost before = out@;
        out.push(copy_chars(&rest[0..i]));
        assert(rest@.subrange(0, i as int) == rest@.take(i as int));
        assert(texts(out@) == texts(before).push(rest@.take(i as int)));
        if i == rest.len() {
            assert(rest@.take(i as int) == rest@);
            assert(texts(before) + seq![rest@] == texts(before).push(rest@));
            return out;
        }
        assert(rest@.skip(i + 1) == s@.skip(from + i + 1));
        assert(texts(before) + (seq![rest@.take(i as int)] + split(rest@.skip(i + 1), sep))
            == texts(out@) + split(rest@.skip(i + 1), sep));
        from = from + i + 1;
    }
}

pub proof fn lemma_split_nonempty(s: Seq<char>, sep: char)
    ensures
        split(s, sep).len() >= 1,
        split(s, sep)[0] == s.take(index_of(s, sep) as int),
{
    lemma_index_of(s, sep);
    if index_of(s, sep) >= s.len() {
        assert(s.take(index_of(s, sep) as int) == s);
    }
}

/// The text before and the text after the first `sep`, where there is one.
pub open spec fn split_once(s: Seq<char>, sep: char) -> Option<(Seq<char>, Seq<char>)> {
    let i = index_of(s, sep) as int;
    if i < s.len() {
        Some((s.take(i), s.skip(i + 1)))
    } else {
        None
    }
}

pub fn split_once_slice(s: &[char], sep: char) -> (res: Option<(&[char], &[char])>)
    ensures
        match res {
            Some((before, after)) => split_once(s@, sep) == Some((before@, after@)),
            None => split_once(s@, sep) is None,
        },
{
    let i = index_of_slice(s, sep);
    if i < s.len() {
        assert(s@.subrange(0, i as int) == s@.take(i as int));
        assert(s@.subrange(i + 1, s@.len() as int) == s@.skip(i + 1));
        Some((&s[0..i], &s[i + 1..s.len()]))
    } else {
        None
    }
}

/// Whether `pat` stands in `s` at index `i`.
pub open spec fn occurs_at(s: Seq<char>, pat: Seq<char>, i: int) -> bool {
    0 <= i && i + pat.len() <= s.len() && s.subrange(i, i + pat.len()) == pat
}

/// Whether `pat` stands somewhere in `s`.
pub open spec fn contains_text(s: Seq<char>, pat: Seq<char>) -> bool {
    exists|i: int| occurs_at(s, pat, i)
}

/// Whether `i` is where `pat` first stands in `s`.
pub open spec fn first_at(s: Seq<char>, pat: Seq<char>, i: int) -> bool {
    occurs_at(s, pat, i) && forall|j: int| 0 <= j < i ==> !occurs_at(s, pat, j)
}

/// Where `pat` first stands in `s`, if it does.
pub open spec fn find(s: Seq<char>, pat: Seq<char>) -> Option<int> {
    if contains_text(s, pat) {
        Some(choose|i: int| first_at(s, pat, i))
    } else {
        None
    }
}

/// `find` gives the one index at which `pat` stands for the first time.
pub proof fn lemma_find(s: Seq<char>, pat: Seq<char>, i: int)
    requires
        first_at(s, pat, i),
    ensures
        find(s, pat) == Some(i),
{
    let k = choose|k: int| first_at(s, pat, k);
    assert(first_at(s, pat, k));
    if k < i {
        assert(!occurs_at(s, pat, k));
    } else if i < k {
        assert(!occurs_at(s, pat, i));
    }
}

proof fn lemma_first_exists(s: Seq<char>, pat: Seq<char>, i: int)
    requires
        occurs_at(s, pat, i),
    ensures
        exists|k: int| first_at(s, pat, k),
    decreases i,
{
    if exists|j: int| 0 <= j < i && occurs_at(s, pat, j) {
        let j = choose|j: int| 0 <= j < i && occurs_at(s, pat, j);
        lemma_first_exists(s, pat, j);
    } else {
        assert(first_at(s, pat, i));
    }
}

/// What `find` gives is the first place.
pub proof fn lemma_find_is_first(s: Seq<char>, pat: Seq<char>)
    ensures
        find(s, pat) matches Some(i) ==> first_at(s, pat, i),
{
    if contains_text(s, pat) {
        let i = choose|i: int| occurs_at(s, pat, i);
        lemma_first_exists(s, pat, i);
    }
}

fn occurs_at_slice(s: &[char], pat: &[char], i: usize) -> (res: bool)
    requires
        i + pat@.len() <= s@.len(),
    ensures
        res == occurs_at(s@, pat@, i as int),
{
    let n = s.len();
    let tail = &s[i..n];
    let piece = &tail[0..pat.len()];
    assert(piece@ == s@.subrange(i as int, i + pat@.len()));
    same_chars(piece, pat)
}

pub fn find_slice(s: &[char], pat: &[char]) -> (res: Option<usize>)
    ensures
        match res {
            Some(i) => find(s@, pat@) == Some(i as int) && first_at(s@, pat@, i as int),
            None => find(s@, pat@) is None && !contains_text(s@, pat@),
        },
{
    if pat.len() > s.len() {
        return None;
    }
    let last = s.len() - pat.len();
    let mut i: usize = 0;
    loop
        invariant
            last == s@.len() - pat@.len(),
            i <= last,
            forall|j: int| 0 <= j < i ==> !occurs_at(s@, pat@, j),
        decreases last - i,
    {
        if occurs_at_slice(s, pat, i) {
            proof {
                lemma_find(s@, pat@, i as int);
            }
            return Some(i);
        }
        if i == last {
            return None;
        }
        i = i + 1;
    }
}

pub fn contains_slice(s: &[char], pat: &[char]) -> (res: bool)
    ensures
        res == contains_text(s@, pat@),
{
    match find_slice(s, pat) {
        Some(i) => {
            assert(occurs_at(s@, pat@, i as int));
            true
        },
        None => false,
    }
}

/// Whether `s` begins with `prefix`.
pub open spec fn starts_with(s: Seq<char>, prefix: Seq<char>) -> bool {
    prefix.len() <= s.len() && s.take(prefix.len() as int) == prefix
}

pub fn starts_with_str(s: &[char], prefix: &str) -> (res: bool)
    ensures
        res == starts_with(s@, prefix@),
{
    let p = chars_of(prefix);
    if p.len() > s.len() {
        return false;
    }
    assert(s@.subrange(0, p@.len() as int) == s@.take(p@.len() as int));
    same_chars(&s[0..p.len()], &p)
}

/// The longest prefix of `s` made of ASCII digits.
pub open spec fn leading_digits(s: Seq<char>) -> Seq<char>
    decreases s.len(),
{
    if s.len() > 0 && is_digit(s[0]) {
        seq![s[0]] + leading_digits(s.skip(1))
    } else {
        Seq::empty()
    }
}

pub fn leading_digits_slice(s: &[char]) -> (out: &[char])
    ensures
        out@ == leading_digits(s@),
{
    let mut i: usize = 0;
    assert(s@.skip(0) == s@);
    while i < s.len() && s[i] >= '0' && s[i] <= '9'
        invariant
            i <= s@.len(),
            leading_digits(s@) == s@.take(i as int) + leading_digits(s@.skip(i as int)),
        decreases s@.len() - i,
    {
        assert(s@.skip(i as int)[0] == s@[i as int]);
        assert(s@.skip(i as int).skip(1) == s@.skip(i + 1));
        assert(s@.take(i as int) + (seq![s@[i as int]] + leading_digits(s@.skip(i + 1)))
            == s@.take(i + 1) + leading_digits(s@.skip(i + 1)));
        i = i + 1;
    }
    assert(i < s@.len() ==> s@.skip(i as int)[0] == s@[i as int]);
    assert(s@.take(i as int) + Seq::<char>::empty() == s@.take(i as int));
    assert(s@.subrange(0, i as int) == s@.take(i as int));
    &s[0..i]
}

// ---------------------------------------------------------------------------
// Words
// ---------------------------------------------------------------------------

/// How many characters stand before the first white space of `s`.
pub open spec fn word_len(s: Seq<char>) -> nat
    decreases s.len(),
{
    if s.len() == 0 || is_white_space(s[0]) {
        0
    } else {
        1 + word_len(s.skip(1))
    }
}

pub proof fn lemma_word_len(s: Seq<char>)
    ensures
        word_len(s) <= s.len(),
    decreases s.len(),
{
    if s.len() > 0 && !is_white_space(s[0]) {
        lemma_word_len(s.skip(1));
    }
}

/// The first word of `s` (text between white space), where there is one.
pub open spec fn first_word(s: Seq<char>) -> Option<Seq<char>> {
    let t = trim_start(s, CharClass::White);
    if t.len() == 0 {
        None
    } else {
        Some(t.take(word_len(t) as int))
    }
}

/// The second word of `s`, where there is one.
pub open spec fn second_word(s: Seq<char>) -> Option<Seq<char>> {
    let t = trim_start(s, CharClass::White);
    first_word(t.skip(word_len(t) as int))
}

fn word_len_slice(s: &[char]) -> (res: usize)
    ensures
        res == word_len(s@),
        res <= s@.len(),
{
    let mut i: usize = 0;
    assert(s@.skip(0) == s@);
    while i < s.len() && !white_space(s[i])
        invariant
            i <= s@.len(),
            word_len(s@) == i + word_len(s@.skip(i as int)),
        decreases s@.len() - i,
    {
        assert(s@.skip(i as int)[0] == s@[i as int]);
        assert(s@.skip(i as int).skip(1) == s@.skip(i + 1));
        i = i + 1;
    }
    assert(i < s@.len() ==> s@.skip(i as int)[0] == s@[i as int]);
    i
}

pub fn second_word_slice(s: &[char]) -> (res: Option<&[char]>)
    ensures
        match res {
            Some(word) => second_word(s@) == Some(word@),
            None => second_word(s@) is None,
        },
{
    let t = trim_start_slice(s, CharClass::White);
    let n = word_len_slice(t);
    let tail = &t[n..t.len()];
    assert(tail@ == t@.skip(n as int));
    let u = trim_start_slice(tail, CharClass::White);
    if u.len() == 0 {
        return None;
    }
    let m = word_len_slice(u);
    assert(u@.subrange(0, m as int) == u@.take(m as int));
    Some(&u[0..m])
}

// ---------------------------------------------------------------------------
// ASCII case
// ---------------------------------------------------------------------------

/// `c` with an ASCII capital replaced by its small letter.
pub open spec fn ascii_lower_char(c: char) -> char {
    if 'A' <= c <= 'Z' {
        (c as u32 + 32) as char
    } else {
        c
    }
}

/// `s` with every ASCII capital replaced by its small letter.
pub open spec fn ascii_lower(s: Seq<char>) -> Seq<char> {
    s.map_values(|c: char| ascii_lower_char(c))
}

pub fn lower_char(c: char) -> (res: char)
    ensures
        res == ascii_lower_char(c),
{
    if 'A' <= c && c <= 'Z' {
        ((c as u8) + 32) as char
    } else {
        c
    }
}

pub fn ascii_lower_slice(s: &[char]) -> (out: Vec<char>)
    ensures
        out@ == ascii_lower(s@),
{
    let mut out: Vec<char> = Vec::new();
    for i in 0..s.len()
        invariant
            out@ == ascii_lower(s@.take(i as int)),
    {
        out.push(lower_char(s[i]));
        assert(ascii_lower(s@.take(i + 1)) == ascii_lower(s@.take(i as int)).push(
            ascii_lower_char(s@[i as int]),
        ));
    }
    assert(s@.take(s@.len() as int) == s@);
    out
}

/// Whether two texts are equal but for ASCII case.
pub open spec fn same_but_case(a: Seq<char>, b: Seq<char>) -> bool {
    ascii_lower(a) == ascii_lower(b)
}

pub fn same_but_case_str(a: &[char], b: &str) -> (res: bool)
    ensures
        res == same_but_case(a@, b@),
{
    let a = ascii_lower_slice(a);
    let b = ascii_lower_slice(&chars_of(b));
    same_chars(&a, &b)
}

// ---------------------------------------------------------------------------
// Order and joining
// ---------------------------------------------------------------------------

/// The order of texts by code point, a prefix before what it begins.
pub open spec fn text_less(a: Seq<char>, b: Seq<char>) -> bool
    decreases a.len(),
{
    if b.len() == 0 {
        false
    } else if a.len() == 0 {
        true
    } else if a[0] == b[0] {
        text_less(a.skip(1), b.skip(1))
    } else {
        a[0] < b[0]
    }
}

pub fn text_less_slice(a: &[char], b: &[char]) -> (res: bool)
    ensures
        res == text_less(a@, b@),
{
    let mut i: usize = 0;
    assert(a@.skip(0) == a@);
    assert(b@.skip(0) == b@);
    while i < a.len() && i < b.len() && a[i] == b[i]
        invariant
            i <= a@.len(),
            i <= b@.len(),
            text_less(a@, b@) == text_less(a@.skip(i as int), b@.skip(i as int)),
        decreases a@.len() - i,
    {
        assert(a@.skip(i as int)[0] == a@[i as int]);
        assert(b@.skip(i as int)[0] == b@[i as int]);
        assert(a@.skip(i as int).skip(1) == a@.skip(i + 1));
        assert(b@.skip(i as int).skip(1) == b@.skip(i + 1));
        i = i + 1;
    }
    if i == b.len() {
        return false;
    }
    if i == a.len() {
        return true;
    }
    assert(a@.skip(i as int)[0] == a@[i as int]);
    assert(b@.skip(i as int)[0] == b@[i as int]);
    a[i] < b[i]
}

pub proof fn lemma_text_less_irreflexive(a: Seq<char>)
    ensures
        !text_less(a, a),
    decreases a.len(),
{
    if a.len() > 0 {
        lemma_text_less_irreflexive(a.skip(1));
    }
}

pub proof fn lemma_text_less_transitive(a: Seq<char>, b: Seq<char>, c: Seq<char>)
    requires
        text_less(a, b),
        text_less(b, c),
    ensures
        text_less(a, c),
    decreases a.len(),
{
    if a.len() > 0 && a[0] == b[0] && b[0] == c[0] {
        lemma_text_less_transitive(a.skip(1), b.skip(1), c.skip(1));
    }
}

pub proof fn lemma_text_less_total(a: Seq<char>, b: Seq<char>)
    requires
        a != b,
    ensures
        text_less(a, b) || text_less(b, a),
    decreases a.len(),
{
    if a.len() > 0 && b.len() > 0 && a[0] == b[0] {
        assert(a == seq![a[0]] + a.skip(1));
        assert(b == seq![b[0]] + b.skip(1));
        lemma_text_less_total(a.skip(1), b.skip(1));
    } else if a.len() == 0 && b.len() == 0 {
        assert(a == b);
    }
}

/// The parts in order with `sep` between neighbours.
pub open spec fn join(parts: Seq<Seq<char>>, sep: Seq<char>) -> Seq<char>
    decreases parts.len(),
{
    if parts.len() == 0 {
        Seq::empty()
    } else if parts.len() == 1 {
        parts[0]
    } else {
        join(parts.drop_last(), sep) + sep + parts.last()
    }
}

/// Joins strings with a separator between neighbours.
pub fn join_strings(parts: &Vec<String>, sep: &str) -> (out: String)
    ensures
        out@ == join(string_texts(parts@), sep@),
{
    let mut out = String::new();
    for i in 0..parts.len()
        invariant
            out@ == join(string_texts(parts@.take(i as int)), sep@),
    {
        assert(string_texts(parts@.take(i + 1)).drop_last() == string_texts(parts@.take(i as int)));
        assert(string_texts(parts@.take(i + 1)).last() == parts@[i as int]@);
        if i > 0 {
            out.append(sep);
        }
        out.append(parts[i].as_str());
    }
    assert(parts@.take(parts@.len() as int) == parts@);
    out
}

// ---------------------------------------------------------------------------
// Taking apart what was put together
// ---------------------------------------------------------------------------

/// Splitting once at a character that stands between two texts gives back the
/// texts, where the first does not hold it.
pub proof fn lemma_split_once_at(a: Seq<char>, sep: char, b: Seq<char>)
    requires
        !a.contains(sep),
    ensures
        split_once(a + seq![sep] + b, sep) == Some((a, b)),
        index_of(a + seq![sep] + b, sep) == a.len(),
{
    let s = a + seq![sep] + b;
    assert forall|j: int| 0 <= j < a.len() implies s[j] != sep by {
        assert(s[j] == a[j]);
        assert(a.contains(a[j]));
    }
    assert(s[a.len() as int] == sep);
    lemma_index_of_is(s, sep, a.len() as int);
    assert(s.take(a.len() as int) =~= a);
    assert(s.skip(a.len() as int + 1) =~= b);
}

/// The parts of a text whose first part does not hold the separator.
pub proof fn lemma_split_at(a: Seq<char>, sep: char, b: Seq<char>)
    requires
        !a.contains(sep),
    ensures
        split(a + seq![sep] + b, sep) == seq![a] + split(b, sep),
{
    lemma_split_once_at(a, sep, b);
    let s = a + seq![sep] + b;
    assert(s.take(a.len() as int) =~= a);
    assert(s.skip(a.len() as int + 1) =~= b);
}

/// A text without the separator is its only part.
pub proof fn lemma_split_single(a: Seq<char>, sep: char)
    requires
        !a.contains(sep),
    ensures
        split(a, sep) == seq![a],
        index_of(a, sep) == a.len(),
{
    assert forall|j: int| 0 <= j < a.len() implies a[j] != sep by {
        assert(a.contains(a[j]));
    }
    lemma_index_of_is(a, sep, a.len() as int);
}

/// Whether a text holds white space.
pub open spec fn has_white_space(s: Seq<char>) -> bool {
    exists|i: int| 0 <= i < s.len() && is_white_space(#[trigger] s[i])
}

/// The word that a text begins with ends at the first white space.
pub proof fn lemma_word_len_at(a: Seq<char>, b: Seq<char>)
    requires
        !has_white_space(a),
        b.len() == 0 || is_white_space(b[0]),
    ensures
        word_len(a + b) == a.len(),
    decreases a.len(),
{
    if a.len() == 0 {
        assert(a + b =~= b);
    } else {
        assert((a + b)[0] == a[0]);
        assert((a + b).skip(1) =~= a.skip(1) + b);
        assert forall|i: int| 0 <= i < a.skip(1).len() implies !is_white_space(
            #[trigger] a.skip(1)[i],
        ) by {
            assert(a.skip(1)[i] == a[i + 1]);
        }
        lemma_word_len_at(a.skip(1), b);
    }
}

/// The second of three words with spaces between them.
pub proof fn lemma_second_word_at(a: Seq<char>, b: Seq<char>, c: Seq<char>)
    requires
        a.len() > 0,
        b.len() > 0,
        !has_white_space(a),
        !has_white_space(b),
    ensures
        second_word(a + seq![' '] + b + seq![' '] + c) == Some(b),
{
    let s = a + seq![' '] + b + seq![' '] + c;
    let tail = seq![' '] + b + seq![' '] + c;
    assert(s =~= a + tail);
    assert(s[0] == a[0]);
    assert(!is_white_space(s[0]));
    lemma_word_len_at(a, tail);
    assert(s.skip(a.len() as int) =~= tail);
    let rest = b + seq![' '] + c;
    assert(tail.skip(1) =~= rest);
    assert(rest[0] == b[0]);
    assert(!is_white_space(rest[0]));
    reveal_with_fuel(trim_start, 3);
    assert(trim_start(tail, CharClass::White) == rest);
    let end = seq![' '] + c;
    assert(rest =~= b + end);
    lemma_word_len_at(b, end);
    assert(rest.take(b.len() as int) =~= b);
}

} // verus!
