//! Text as sequences of characters: the vocabulary of the other modules' contracts, and
//! the verified operations on strings that they are built from.

use vstd::prelude::*;

verus! {

broadcast use vstd::string::group_string_axioms;

/// `String::push` appends one character.
pub assume_specification[ String::push ](s: &mut String, c: char)
    ensures
        final(s)@ == old(s)@.push(c),
;

/// The texts of a sequence of strings.
pub open spec fn texts(items: Seq<String>) -> Seq<Seq<char>> {
    items.map_values(|item: String| item@)
}

/// The text of an optional string.
pub open spec fn opt_text(item: Option<String>) -> Option<Seq<char>> {
    match item {
        Some(s) => Some(s@),
        None => None,
    }
}

/// Characters with the Unicode property `White_Space`.
pub open spec fn is_whitespace(c: char) -> bool {
    let n = c as int;
    ||| 0x9 <= n <= 0xD
    ||| n == 0x20
    ||| n == 0x85
    ||| n == 0xA0
    ||| n == 0x1680
    ||| 0x2000 <= n <= 0x200A
    ||| n == 0x2028
    ||| n == 0x2029
    ||| n == 0x202F
    ||| n == 0x205F
    ||| n == 0x3000
}

/// Characters of the Unicode category `Cc`.
pub open spec fn is_control(c: char) -> bool {
    let n = c as int;
    n <= 0x1F || 0x7F <= n <= 0x9F
}

pub open spec fn is_ascii_digit(c: char) -> bool {
    '0' as int <= c as int <= '9' as int
}

pub open spec fn is_ascii_alphanumeric(c: char) -> bool {
    ||| is_ascii_digit(c)
    ||| 'a' as int <= c as int <= 'z' as int
    ||| 'A' as int <= c as int <= 'Z' as int
}

/// A set of characters that text is trimmed by.
#[derive(Debug, Clone, Copy, PartialEq, Eq, Structural)]
pub enum CharSet {
    Whitespace,
    /// Square, round and curly brackets.
    Brackets,
    /// `-`, `|`, `,` and `.`.
    Trailers,
    /// `-`, `|`, `:` and the space.
    Separators,
    LineFeed,
}

impl CharSet {
    pub open spec fn has(self, c: char) -> bool {
        match self {
            CharSet::Whitespace => is_whitespace(c),
            CharSet::Brackets => c == '[' || c == ']' || c == '(' || c == ')' || c == '{' || c
                == '}',
            CharSet::Trailers => c == '-' || c == '|' || c == ',' || c == '.',
            CharSet::Separators => c == '-' || c == '|' || c == ':' || c == ' ',
            CharSet::LineFeed => c == '\n',
        }
    }

    pub fn contains(&self, c: char) -> (r: bool)
        ensures
            r == self.has(c),
    {
        match self {
            CharSet::Whitespace => whitespace(c),
            CharSet::Brackets => c == '[' || c == ']' || c == '(' || c == ')' || c == '{' || c
                == '}',
            CharSet::Trailers => c == '-' || c == '|' || c == ',' || c == '.',
            CharSet::Separators => c == '-' || c == '|' || c == ':' || c == ' ',
            CharSet::LineFeed => c == '\n',
        }
    }
}

/// `s` without its longest prefix of characters in `set`.
pub open spec fn skip_leading(s: Seq<char>, set: CharSet) -> Seq<char>
    decreases s.len(),
{
    if s.len() > 0 && set.has(s[0]) {
        skip_leading(s.drop_first(), set)
    } else {
        s
    }
}

/// `s` without its longest suffix of characters in `set`.
pub open spec fn skip_trailing(s: Seq<char>, set: CharSet) -> Seq<char>
    decreases s.len(),
{
    if s.len() > 0 && set.has(s.last()) {
        skip_trailing(s.drop_last(), set)
    } else {
        s
    }
}

/// `s` without the characters of `set` at its two ends.
pub open spec fn trimmed_by(s: Seq<char>, set: CharSet) -> Seq<char> {
    skip_trailing(skip_leading(s, set), set)
}

/// `s` without the whitespace at its two ends.
pub open spec fn trimmed(s: Seq<char>) -> Seq<char> {
    trimmed_by(s, CharSet::Whitespace)
}

/// Whether `s` holds nothing but whitespace.
pub open spec fn is_blank(s: Seq<char>) -> bool {
    trimmed(s).len() == 0
}

/// Whether `pattern` stands in `s` from position `i` on.
pub open spec fn occurs_at(s: Seq<char>, pattern: Seq<char>, i: int) -> bool {
    0 <= i && i + pattern.len() <= s.len() && s.subrange(i, i + pattern.len()) == pattern
}

/// Whether `pattern` stands somewhere in `s`.
pub open spec fn has_text(s: Seq<char>, pattern: Seq<char>) -> bool {
    exists|i: int| occurs_at(s, pattern, i)
}

/// The pieces of `s` between the occurrences of `sep`; always at least one.
pub open spec fn split_at(s: Seq<char>, sep: char) -> Seq<Seq<char>>
    decreases s.len(),
{
    if s.len() == 0 {
        seq![Seq::empty()]
    } else {
        let pieces = split_at(s.drop_last(), sep);
        if s.last() == sep {
            pieces.push(Seq::empty())
        } else {
            pieces.drop_last().push(pieces.last().push(s.last()))
        }
    }
}

/// `s` without one carriage return at its end.
pub open spec fn without_cr(s: Seq<char>) -> Seq<char> {
    if s.len() > 0 && s.last() == '\r' {
        s.drop_last()
    } else {
        s
    }
}

/// The lines of `s`: a line ends at a line feed, which a carriage return may precede; what
/// follows the last line feed is a line of its own unless it is empty.
pub open spec fn lines_of(s: Seq<char>) -> Seq<Seq<char>> {
    let pieces = split_at(s, '\n');
    let ended = pieces.drop_last().map_values(|piece: Seq<char>| without_cr(piece));
    if pieces.last().len() == 0 {
        ended
    } else {
        ended.push(pieces.last())
    }
}

/// The longest runs of characters that are not whitespace.
pub open spec fn words_of(s: Seq<char>) -> Seq<Seq<char>>
    decreases s.len(),
{
    if s.len() == 0 {
        Seq::empty()
    } else {
        let words = words_of(s.drop_last());
        if is_whitespace(s.last()) {
            words
        } else if s.len() == 1 || is_whitespace(s[s.len() - 2]) {
            words.push(seq![s.last()])
        } else {
            words.drop_last().push(words.last().push(s.last()))
        }
    }
}

/// The parts one after another with `sep` between neighbours.
pub open spec fn joined(parts: Seq<Seq<char>>, sep: Seq<char>) -> Seq<char>
    decreases parts.len(),
{
    if parts.len() == 0 {
        Seq::empty()
    } else if parts.len() == 1 {
        parts[0]
    } else {
        joined(parts.drop_last(), sep) + sep + parts.last()
    }
}

/// `s` with every `c` replaced by `with`.
pub open spec fn replaced(s: Seq<char>, c: char, with: Seq<char>) -> Seq<char>
    decreases s.len(),
{
    if s.len() == 0 {
        Seq::empty()
    } else if s.last() == c {
        replaced(s.drop_last(), c, with) + with
    } else {
        replaced(s.drop_last(), c, with).push(s.last())
    }
}

pub open spec fn ascii_lower(c: char) -> char {
    if 'A' as int <= c as int <= 'Z' as int {
        (c as int + 32) as char
    } else {
        c
    }
}

/// `s` with its ASCII capitals in lower case.
pub open spec fn ascii_lowered(s: Seq<char>) -> Seq<char> {
    s.map_values(|c: char| ascii_lower(c))
}

pub open spec fn digit_char(d: nat) -> char {
    ('0' as int + d) as char
}

/// The decimal digits of `n`, without leading zeros.
pub open spec fn decimal(n: nat) -> Seq<char>
    decreases n,
{
    if n < 10 {
        seq![digit_char(n)]
    } else {
        decimal(n / 10).push(digit_char(n % 10))
    }
}

/// The decimal digits of `n`, behind a minus sign if it is negative.
pub open spec fn signed_decimal(n: int) -> Seq<char> {
    if n < 0 {
        seq!['-'] + decimal((-n) as nat)
    } else {
        decimal(n as nat)
    }
}

pub open spec fn all_digits(s: Seq<char>) -> bool {
    forall|i: int| 0 <= i < s.len() ==> is_ascii_digit(#[trigger] s[i])
}

/// The number that a run of decimal digits denotes.
pub open spec fn digits_value(s: Seq<char>) -> nat
    decreases s.len(),
{
    if s.len() == 0 {
        0
    } else {
        (10 * digits_value(s.drop_last()) + (s.last() as int - '0' as int)) as nat
    }
}

/// The number at most `max` that `s` denotes: digits, which a plus sign may precede.
pub open spec fn unsigned_value(s: Seq<char>, max: nat) -> Option<nat> {
    let body = if s.len() > 0 && s[0] == '+' {
        s.skip(1)
    } else {
        s
    };
    if body.len() > 0 && all_digits(body) && digits_value(body) <= max {
        Some(digits_value(body))
    } else {
        None
    }
}

/// The 64-bit number that `s` denotes: digits, which a sign may precede.
pub open spec fn i64_value(s: Seq<char>) -> Option<int> {
    if s.len() > 0 && s[0] == '-' {
        let body = s.skip(1);
        if body.len() > 0 && all_digits(body) && digits_value(body) <= 0x8000_0000_0000_0000 {
            Some(-(digits_value(body) as int))
        } else {
            None
        }
    } else {
        match unsigned_value(s, i64::MAX as nat) {
            Some(n) => Some(n as int),
            None => None,
        }
    }
}

/// The order of strings: by their first differing character, a prefix first.
pub open spec fn text_le(a: Seq<char>, b: Seq<char>) -> bool
    decreases a.len(),
{
    if a.len() == 0 {
        true
    } else if b.len() == 0 {
        false
    } else if a[0] == b[0] {
        text_le(a.drop_first(), b.drop_first())
    } else {
        (a[0] as int) < (b[0] as int)
    }
}

/// The characters of a string, in order.
pub fn chars_of(s: &str) -> (chars: Vec<char>)
    ensures
        chars@ == s@,
{
    let mut chars: Vec<char> = Vec::new();
    for c in iter: s.chars()
        invariant
            iter.seq() == s@,
            chars@ == s@.take(iter.index()),
    {
        chars.push(c);
        assert(s@.take(iter.index() + 1) == s@.take(iter.index()).push(s@[iter.index()]));
    }
    assert(s@.take(s@.len() as int) == s@);
    chars
}

/// The string of a slice of characters.
pub fn string_of(chars: &[char]) -> (s: String)
    ensures
        s@ == chars@,
{
    let mut s = String::new();
    let mut i: usize = 0;
    while i < chars.len()
        invariant
            i <= chars.len(),
            s@ == chars@.take(i as int),
        decreases chars.len() - i,
    {
        s.push(chars[i]);
        assert(chars@.take(i + 1) == chars@.take(i as int).push(chars@[i as int]));
        i += 1;
    }
    assert(chars@.take(chars@.len() as int) == chars@);
    s
}

/// Whether two strings hold the same characters.
pub fn same(a: &str, b: &str) -> (r: bool)
    ensures
        r == (a@ == b@),
{
    a.to_owned() == b.to_owned()
}

/// The number of a character.
fn code(c: char) -> (n: u32)
    ensures
        n == c as int,
{
    c as u32
}

pub fn whitespace(c: char) -> (r: bool)
    ensures
        r == is_whitespace(c),
{
    let n: u32 = code(c);
    (0x9 <= n && n <= 0xD) || n == 0x20 || n == 0x85 || n == 0xA0 || n == 0x1680 || (0x2000 <= n
        && n <= 0x200A) || n == 0x2028 || n == 0x2029 || n == 0x202F || n == 0x205F || n == 0x3000
}

/// `s` without its leading characters in `set`.
pub fn trim_start_by<'a>(s: &'a str, set: CharSet) -> (r: &'a str)
    ensures
        r@ == skip_leading(s@, set),
{
    let chars = chars_of(s);
    let mut i: usize = 0;
    assert(s@.skip(0) == s@);
    while i < chars.len() && set.contains(chars[i])
        invariant
            chars@ == s@,
            i <= chars.len(),
            skip_leading(s@, set) == skip_leading(s@.skip(i as int), set),
        decreases chars.len() - i,
    {
        assert(s@.skip(i as int).drop_first() == s@.skip(i + 1));
        i += 1;
    }
    let r = s.substring_char(i, chars.len());
    assert(r@ == s@.skip(i as int));
    r
}

/// `s` without its trailing characters in `set`.
pub fn trim_end_by<'a>(s: &'a str, set: CharSet) -> (r: &'a str)
    ensures
        r@ == skip_trailing(s@, set),
{
    let chars = chars_of(s);
    let mut end: usize = chars.len();
    assert(s@.take(end as int) == s@);
    while end > 0 && set.contains(chars[end - 1])
        invariant
            chars@ == s@,
            end <= chars.len(),
            skip_trailing(s@, set) == skip_trailing(s@.take(end as int), set),
        decreases end,
    {
        assert(s@.take(end as int).drop_last() == s@.take(end - 1));
        end -= 1;
    }
    let r = s.substring_char(0, end);
    assert(r@ == s@.take(end as int));
    r
}

/// `s` without the characters of `set` at its ends.
pub fn trim_by<'a>(s: &'a str, set: CharSet) -> (r: &'a str)
    ensures
        r@ == trimmed_by(s@, set),
{
    trim_end_by(trim_start_by(s, set), set)
}

/// `s` without the whitespace at its ends.
pub fn trim<'a>(s: &'a str) -> (r: &'a str)
    ensures
        r@ == trimmed(s@),
{
    trim_by(s, CharSet::Whitespace)
}

/// Whether `s` holds nothing but whitespace.
pub fn blank(s: &str) -> (r: bool)
    ensures
        r == is_blank(s@),
{
    trim(s).is_empty()
}

fn matches_at(chars: &[char], pattern: &[char], i: usize) -> (r: bool)
    ensures
        r == occurs_at(chars@, pattern@, i as int),
{
    if i > chars.len() || pattern.len() > chars.len() - i {
        return false;
    }
    let mut k: usize = 0;
    while k < pattern.len()
        invariant
            k <= pattern.len(),
            i + pattern.len() <= chars.len(),
            forall|j: int| 0 <= j < k ==> chars@[i + j] == #[trigger] pattern@[j],
        decreases pattern.len() - k,
    {
        if chars[i + k] != pattern[k] {
            assert(chars@.subrange(i as int, i + pattern@.len())[k as int] == chars@[i + k]);
            return false;
        }
        k += 1;
    }
    assert(chars@.subrange(i as int, i + pattern@.len()) == pattern@);
    true
}

/// Where `pattern` first stands in `s`.
pub fn find(s: &str, pattern: &str) -> (r: Option<usize>)
    ensures
        match r {
            Some(i) => occurs_at(s@, pattern@, i as int) && forall|j: int|
                0 <= j < i ==> !occurs_at(s@, pattern@, j),
            None => !has_text(s@, pattern@),
        },
{
    let chars = chars_of(s);
    let pat = chars_of(pattern);
    let mut i: usize = 0;
    while i < chars.len()
        invariant
            chars@ == s@,
            pat@ == pattern@,
            i <= chars.len(),
            forall|j: int| 0 <= j < i ==> !occurs_at(s@, pattern@, j),
        decreases chars.len() - i,
    {
        if matches_at(chars.as_slice(), pat.as_slice(), i) {
            return Some(i);
        }
        i += 1;
    }
    if matches_at(chars.as_slice(), pat.as_slice(), i) {
        Some(i)
    } else {
        None
    }
}

/// Whether `pattern` stands somewhere in `s`.
pub fn contains(s: &str, pattern: &str) -> (r: bool)
    ensures
        r == has_text(s@, pattern@),
{
    find(s, pattern).is_some()
}

/// Whether `s` begins with `prefix`.
pub fn starts_with(s: &str, prefix: &str) -> (r: bool)
    ensures
        r == prefix@.is_prefix_of(s@),
{
    let r = matches_at(chars_of(s).as_slice(), chars_of(prefix).as_slice(), 0);
    r
}

/// Whether `s` ends with `suffix`.
pub fn ends_with(s: &str, suffix: &str) -> (r: bool)
    ensures
        r == suffix@.is_suffix_of(s@),
{
    let chars = chars_of(s);
    let end = chars_of(suffix);
    if end.len() > chars.len() {
        return false;
    }
    matches_at(chars.as_slice(), end.as_slice(), chars.len() - end.len())
}

/// What follows `prefix` in `s`.
pub fn strip_prefix<'a>(s: &'a str, prefix: &str) -> (r: Option<&'a str>)
    ensures
        match r {
            Some(rest) => prefix@.is_prefix_of(s@) && rest@ == s@.skip(prefix@.len() as int),
            None => !prefix@.is_prefix_of(s@),
        },
{
    if starts_with(s, prefix) {
        let rest = s.substring_char(prefix.unicode_len(), s.unicode_len());
        assert(rest@ == s@.skip(prefix@.len() as int));
        Some(rest)
    } else {
        None
    }
}

/// What precedes `suffix` in `s`.
pub fn strip_suffix<'a>(s: &'a str, suffix: &str) -> (r: Option<&'a str>)
    ensures
        match r {
            Some(rest) => suffix@.is_suffix_of(s@) && rest@ == s@.take(s@.len() - suffix@.len()),
            None => !suffix@.is_suffix_of(s@),
        },
{
    if ends_with(s, suffix) {
        let rest = s.substring_char(0, s.unicode_len() - suffix.unicode_len());
        assert(rest@ == s@.take(s@.len() - suffix@.len()));
        Some(rest)
    } else {
        None
    }
}

/// The pieces of `s` between the occurrences of `sep`.
pub fn split(s: &str, sep: char) -> (pieces: Vec<String>)
    ensures
        texts(pieces@) == split_at(s@, sep),
{
    let chars = chars_of(s);
    let mut pieces: Vec<String> = Vec::new();
    let mut piece = String::new();
    let mut i: usize = 0;
    assert(texts(pieces@).push(piece@) == split_at(s@.take(0), sep));
    while i < chars.len()
        invariant
            chars@ == s@,
            i <= chars.len(),
            texts(pieces@).push(piece@) == split_at(s@.take(i as int), sep),
        decreases chars.len() - i,
    {
        assert(s@.take(i + 1).drop_last() == s@.take(i as int));
        let ghost before = texts(pieces@).push(piece@);
        assert(before.drop_last() == texts(pieces@));
        if chars[i] == sep {
            pieces.push(piece);
            piece = String::new();
            assert(texts(pieces@) == before);
        } else {
            piece.push(chars[i]);
        }
        i += 1;
    }
    assert(s@.take(s@.len() as int) == s@);
    let ghost before = texts(pieces@).push(piece@);
    pieces.push(piece);
    assert(texts(pieces@) == before);
    pieces
}

pub proof fn lemma_split_nonempty(s: Seq<char>, sep: char)
    ensures
        split_at(s, sep).len() > 0,
    decreases s.len(),
{
    if s.len() > 0 {
        lemma_split_nonempty(s.drop_last(), sep);
    }
}

/// The lines of `s`.
pub fn lines(s: &str) -> (lines: Vec<String>)
    ensures
        texts(lines@) == lines_of(s@),
{
    let pieces = split(s, '\n');
    proof {
        lemma_split_nonempty(s@, '\n');
    }
    let ghost all = split_at(s@, '\n');
    let ghost ended = all.drop_last().map_values(|piece: Seq<char>| without_cr(piece));
    let mut lines: Vec<String> = Vec::new();
    let last: usize = pieces.len() - 1;
    let mut i: usize = 0;
    while i < last
        invariant
            texts(pieces@) == all,
            last == pieces.len() - 1,
            i <= last,
            ended == all.drop_last().map_values(|piece: Seq<char>| without_cr(piece)),
            texts(lines@) == ended.take(i as int),
        decreases last - i,
    {
        let piece = pieces[i].as_str();
        proof {
            reveal_strlit("\r");
            assert(texts(pieces@)[i as int] == piece@);
        }
        let line = match strip_suffix(piece, "\r") {
            Some(rest) => {
                assert(piece@.last() == piece@.subrange(piece@.len() - 1, piece@.len() as int)[0]);
                rest.to_owned()
            },
            None => {
                proof {
                    if piece@.len() > 0 && piece@.last() == '\r' {
                        assert("\r"@ =~= piece@.subrange(piece@.len() - 1, piece@.len() as int));
                    }
                }
                piece.to_owned()
            },
        };
        assert(line@ == without_cr(piece@));
        let ghost before = texts(lines@);
        lines.push(line);
        assert(texts(lines@) == before.push(line@));
        assert(ended.take(i + 1) == ended.take(i as int).push(ended[i as int]));
        i += 1;
    }
    assert(ended.take(last as int) == ended);
    assert(texts(pieces@)[last as int] == pieces@[last as int]@);
    if !pieces[last].as_str().is_empty() {
        lines.push(pieces[last].clone());
        assert(texts(lines@) == ended.push(all.last()));
    }
    lines
}

/// The words of `s`: its longest runs without whitespace.
pub fn split_whitespace(s: &str) -> (words: Vec<String>)
    ensures
        texts(words@) == words_of(s@),
{
    let chars = chars_of(s);
    let mut words: Vec<String> = Vec::new();
    let mut word = String::new();
    let mut i: usize = 0;
    while i < chars.len()
        invariant
            chars@ == s@,
            i <= chars.len(),
            word@.len() > 0 <==> i > 0 && !is_whitespace(s@[i - 1]),
            words_of(s@.take(i as int)) == if word@.len() > 0 {
                texts(words@).push(word@)
            } else {
                texts(words@)
            },
        decreases chars.len() - i,
    {
        assert(s@.take(i + 1).drop_last() == s@.take(i as int));
        let ghost before = texts(words@);
        if whitespace(chars[i]) {
            if !word.as_str().is_empty() {
                words.push(word);
                word = String::new();
                assert(texts(words@) == words_of(s@.take(i as int)));
            }
        } else {
            let ghost old_word = word@;
            word.push(chars[i]);
            proof {
                if old_word.len() > 0 {
                    assert(before.push(old_word).drop_last() == before);
                } else {
                    assert(word@ == seq![s@[i as int]]);
                }
            }
        }
        i += 1;
    }
    assert(s@.take(s@.len() as int) == s@);
    if !word.as_str().is_empty() {
        let ghost before = texts(words@);
        words.push(word);
        assert(texts(words@) == before.push(word@));
    }
    words
}

/// The parts one after another with `sep` between neighbours.
pub fn join(parts: &Vec<String>, sep: &str) -> (r: String)
    ensures
        r@ == joined(texts(parts@), sep@),
{
    let ghost all = texts(parts@);
    let mut r = String::new();
    let mut i: usize = 0;
    while i < parts.len()
        invariant
            all == texts(parts@),
            i <= parts.len(),
            r@ == joined(all.take(i as int), sep@),
        decreases parts.len() - i,
    {
        assert(all.take(i + 1).drop_last() == all.take(i as int));
        assert(all[i as int] == parts@[i as int]@);
        if i > 0 {
            r.append(sep);
        }
        r.append(parts[i].as_str());
        assert(r@ == joined(all.take(i + 1), sep@));
        i += 1;
    }
    assert(all.take(parts@.len() as int) == all);
    r
}

/// `s` with every `c` replaced by `with`.
pub fn replace(s: &str, c: char, with: &str) -> (r: String)
    ensures
        r@ == replaced(s@, c, with@),
{
    let chars = chars_of(s);
    let mut r = String::new();
    let mut i: usize = 0;
    while i < chars.len()
        invariant
            chars@ == s@,
            i <= chars.len(),
            r@ == replaced(s@.take(i as int), c, with@),
        decreases chars.len() - i,
    {
        assert(s@.take(i + 1).drop_last() == s@.take(i as int));
        if chars[i] == c {
            r.append(with);
        } else {
            r.push(chars[i]);
        }
        i += 1;
    }
    assert(s@.take(s@.len() as int) == s@);
    r
}

fn lower(c: char) -> (r: char)
    ensures
        r == ascii_lower(c),
{
    match c {
        'A'..='Z' => ((c as u8) + 32) as char,
        _ => c,
    }
}

/// `s` with its ASCII capitals in lower case.
pub fn to_ascii_lowercase(s: &str) -> (r: String)
    ensures
        r@ == ascii_lowered(s@),
{
    let chars = chars_of(s);
    let mut r = String::new();
    let mut i: usize = 0;
    while i < chars.len()
        invariant
            chars@ == s@,
            i <= chars.len(),
            r@ == ascii_lowered(s@).take(i as int),
        decreases chars.len() - i,
    {
        r.push(lower(chars[i]));
        assert(ascii_lowered(s@).take(i + 1) == ascii_lowered(s@).take(i as int).push(
            ascii_lowered(s@)[i as int],
        ));
        i += 1;
    }
    assert(ascii_lowered(s@).take(s@.len() as int) == ascii_lowered(s@));
    r
}

fn digit(d: u8) -> (c: char)
    requires
        d < 10,
    ensures
        c == digit_char(d as nat),
{
    (48 + d) as char
}

/// Appends the decimal digits of `n`.
pub fn push_decimal(s: &mut String, n: u64)
    ensures
        final(s)@ == old(s)@ + decimal(n as nat),
    decreases n,
{
    if n >= 10 {
        push_decimal(s, n / 10);
    }
    s.push(digit((n % 10) as u8));
    assert(s@ == old(s)@ + decimal(n as nat));
}

/// The decimal digits of `n`.
pub fn to_decimal(n: u64) -> (s: String)
    ensures
        s@ == decimal(n as nat),
{
    let mut s = String::new();
    push_decimal(&mut s, n);
    assert(s@ == decimal(n as nat));
    s
}

/// The decimal digits of `n`, behind a minus sign if it is negative.
pub fn to_signed_decimal(n: i64) -> (s: String)
    ensures
        s@ == signed_decimal(n as int),
{
    let mut s = String::new();
    if n < 0 {
        s.push('-');
        let magnitude: u64 = (-(n as i128)) as u64;
        push_decimal(&mut s, magnitude);
        assert(s@ == signed_decimal(n as int));
    } else {
        push_decimal(&mut s, n as u64);
        assert(s@ == signed_decimal(n as int));
    }
    s
}

/// The value of the digits from `from` on, if there is one, all are digits and it is at
/// most `max`.
fn digits_from(chars: &Vec<char>, from: usize, max: u64) -> (r: Option<u64>)
    requires
        from <= chars.len(),
    ensures
        ({
            let body = chars@.skip(from as int);
            let ok = body.len() > 0 && all_digits(body) && digits_value(body) <= max;
            match r {
                Some(n) => ok && n == digits_value(body),
                None => !ok,
            }
        }),
{
    let ghost body = chars@.skip(from as int);
    let mut value: u64 = 0;
    let mut too_big: bool = false;
    let mut i: usize = from;
    while i < chars.len()
        invariant
            from <= i <= chars.len(),
            body == chars@.skip(from as int),
            all_digits(body.take(i - from)),
            too_big ==> digits_value(body.take(i - from)) > max,
            !too_big ==> digits_value(body.take(i - from)) == value && value <= max,
        decreases chars.len() - i,
    {
        let c = chars[i];
        let ghost next = body.take(i + 1 - from);
        assert(next.drop_last() == body.take(i - from));
        assert(next.last() == c);
        let n: u32 = code(c);
        if n < 48 || n > 57 {
            assert(!is_ascii_digit(body[i - from]));
            return None;
        }
        if !too_big {
            let grown: u128 = (value as u128) * 10 + (n - 48) as u128;
            if grown > max as u128 {
                too_big = true;
            } else {
                value = grown as u64;
            }
        }
        i += 1;
    }
    assert(body.take(body.len() as int) == body);
    if i == from || too_big {
        None
    } else {
        Some(value)
    }
}

/// The number at most `max` that `s` denotes.
pub fn parse_unsigned(s: &str, max: u64) -> (r: Option<u64>)
    ensures
        match r {
            Some(n) => unsigned_value(s@, max as nat) == Some(n as nat),
            None => unsigned_value(s@, max as nat) is None,
        },
{
    let chars = chars_of(s);
    let from: usize = if chars.len() > 0 && chars[0] == '+' {
        1
    } else {
        0
    };
    assert(s@.skip(0) == s@);
    digits_from(&chars, from, max)
}

/// The 64-bit number that `s` denotes.
pub fn parse_i64(s: &str) -> (r: Option<i64>)
    ensures
        match r {
            Some(n) => i64_value(s@) == Some(n as int),
            None => i64_value(s@) is None,
        },
{
    let chars = chars_of(s);
    if chars.len() > 0 && chars[0] == '-' {
        match digits_from(&chars, 1, 0x8000_0000_0000_0000) {
            Some(n) => Some((-(n as i128)) as i64),
            None => None,
        }
    } else {
        match parse_unsigned(s, i64::MAX as u64) {
            Some(n) => Some(n as i64),
            None => None,
        }
    }
}

/// Whether `a` comes no later than `b` in the order of strings.
pub fn text_at_most(a: &str, b: &str) -> (r: bool)
    ensures
        r == text_le(a@, b@),
{
    let left = chars_of(a);
    let right = chars_of(b);
    let mut i: usize = 0;
    assert(a@.skip(0) == a@ && b@.skip(0) == b@);
    while i < left.len() && i < right.len() && left[i] == right[i]
        invariant
            left@ == a@,
            right@ == b@,
            i <= left.len(),
            i <= right.len(),
            text_le(a@, b@) == text_le(a@.skip(i as int), b@.skip(i as int)),
        decreases left.len() - i,
    {
        assert(a@.skip(i as int).drop_first() == a@.skip(i + 1));
        assert(b@.skip(i as int).drop_first() == b@.skip(i + 1));
        i += 1;
    }
    if i == left.len() {
        true
    } else if i == right.len() {
        false
    } else {
        code(left[i]) < code(right[i])
    }
}

/// The texts of a sequence of string slices.
pub open spec fn slices(items: Seq<&str>) -> Seq<Seq<char>> {
    items.map_values(|item: &str| item@)
}

/// Owned copies of strings.
pub fn owned(items: &[&str]) -> (r: Vec<String>)
    ensures
        texts(r@) == slices(items@),
{
    let mut r: Vec<String> = Vec::new();
    let mut i: usize = 0;
    while i < items.len()
        invariant
            i <= items.len(),
            texts(r@) == slices(items@).take(i as int),
        decreases items.len() - i,
    {
        let ghost before = texts(r@);
        r.push(items[i].to_owned());
        assert(texts(r@) =~= before.push(items@[i as int]@));
        assert(slices(items@).take(i + 1) =~= before.push(items@[i as int]@));
        i += 1;
    }
    assert(slices(items@).take(items@.len() as int) =~= slices(items@));
    r
}

proof fn lemma_decimal_nonempty(n: nat)
    ensures
        decimal(n).len() > 0,
{
}

/// Different numbers have different digits.
pub proof fn decimal_is_injective(a: nat, b: nat)
    requires
        decimal(a) == decimal(b),
    ensures
        a == b,
    decreases a,
{
    lemma_decimal_nonempty(a / 10);
    lemma_decimal_nonempty(b / 10);
    assert(decimal(a).last() == digit_char(a % 10) && digit_char(a % 10) as int == 48 + a % 10);
    assert(decimal(b).last() == digit_char(b % 10) && digit_char(b % 10) as int == 48 + b % 10);
    if a >= 10 && b >= 10 {
        assert(decimal(a).drop_last() =~= decimal(a / 10));
        assert(decimal(b).drop_last() =~= decimal(b / 10));
        decimal_is_injective(a / 10, b / 10);
    } else {
        assert(decimal(a).len() == decimal(b).len());
    }
}

/// The digits of a number denote it.
pub proof fn decimal_denotes_its_number(n: nat)
    ensures
        all_digits(decimal(n)),
        digits_value(decimal(n)) == n,
        decimal(n).len() > 0,
    decreases n,
{
    assert(digit_char(n % 10) as int == 48 + n % 10);
    if n >= 10 {
        decimal_denotes_its_number(n / 10);
        assert(decimal(n).drop_last() =~= decimal(n / 10));
        assert forall|i: int| 0 <= i < decimal(n).len() implies is_ascii_digit(
            #[trigger] decimal(n)[i],
        ) by {
            if i < decimal(n / 10).len() {
                assert(decimal(n)[i] == decimal(n / 10)[i]);
            }
        }
    } else {
        let empty = decimal(n).drop_last();
        assert(digits_value(empty) == 0);
        assert(decimal(n).last() == digit_char(n));
    }
}

/// A 64-bit number is read back from its digits.
pub proof fn signed_decimal_reads_back(n: i64)
    ensures
        i64_value(signed_decimal(n as int)) == Some(n as int),
{
    if n < 0 {
        let m = (-n) as nat;
        decimal_denotes_its_number(m);
        assert(signed_decimal(n as int).skip(1) =~= decimal(m));
    } else {
        decimal_denotes_its_number(n as nat);
        assert(is_ascii_digit(decimal(n as nat)[0]));
    }
}

proof fn lemma_split_add(a: Seq<char>, b: Seq<char>, sep: char)
    requires
        !b.contains(sep),
    ensures
        split_at(a, sep).len() > 0,
        split_at(a + b, sep) == split_at(a, sep).drop_last().push(split_at(a, sep).last() + b),
    decreases b.len(),
{
    lemma_split_nonempty(a, sep);
    let pieces = split_at(a, sep);
    if b.len() == 0 {
        assert(a + b =~= a);
        assert(pieces.last() + b =~= pieces.last());
        assert(pieces.drop_last().push(pieces.last()) =~= pieces);
    } else {
        let front = b.drop_last();
        assert forall|i: int| 0 <= i < front.len() implies front[i] != sep by {
            assert(b[i] == front[i]);
            assert(b.contains(b[i]));
        }
        lemma_split_add(a, front, sep);
        assert((a + b).drop_last() =~= a + front);
        assert((a + b).last() == b.last());
        assert(b.contains(b[b.len() - 1]));
        let before = split_at(a + front, sep);
        assert(before.drop_last() =~= pieces.drop_last());
        assert((pieces.last() + front).push(b.last()) =~= pieces.last() + b);
    }
}

pub proof fn lemma_split_joined(items: Seq<Seq<char>>, sep: char)
    requires
        items.len() > 0,
        forall|i: int| 0 <= i < items.len() ==> !(#[trigger] items[i]).contains(sep),
    ensures
        split_at(joined(items, seq![sep]), sep) == items,
    decreases items.len(),
{
    if items.len() == 1 {
        let none = Seq::<char>::empty();
        lemma_split_add(none, items[0], sep);
        assert(none + items[0] =~= items[0]);
        assert(split_at(items[0], sep) =~= items);
    } else {
        let rest = items.drop_last();
        assert forall|i: int| 0 <= i < rest.len() implies !(#[trigger] rest[i]).contains(sep) by {
            assert(rest[i] == items[i]);
        }
        lemma_split_joined(rest, sep);
        let head = joined(rest, seq![sep]);
        assert(head + seq![sep] =~= head.push(sep));
        assert(head.push(sep).drop_last() =~= head);
        let last = items.last();
        assert(!items[items.len() - 1].contains(sep));
        lemma_split_add(head.push(sep), last, sep);
        let none = Seq::<char>::empty();
        assert(none + last =~= last);
        assert(rest.push(none).drop_last() =~= rest);
        assert(split_at(joined(items, seq![sep]), sep) =~= items);
    }
}

proof fn lemma_pieces_have_no_separator(s: Seq<char>, sep: char)
    ensures
        forall|i: int|
            0 <= i < split_at(s, sep).len() ==> !(#[trigger] split_at(s, sep)[i]).contains(sep),
    decreases s.len(),
{
    if s.len() > 0 {
        let before = split_at(s.drop_last(), sep);
        let after = split_at(s, sep);
        lemma_split_nonempty(s.drop_last(), sep);
        lemma_pieces_have_no_separator(s.drop_last(), sep);
        assert forall|i: int| 0 <= i < after.len() implies !(#[trigger] after[i]).contains(sep) by {
            if i < after.len() - 1 {
                assert(after[i] == before[i]);
            } else if s.last() != sep {
                let piece = before.last();
                assert(!before[before.len() - 1].contains(sep));
                assert forall|k: int| 0 <= k < after[i].len() implies after[i][k] != sep by {
                    if k < piece.len() {
                        assert(after[i][k] == piece[k]);
                        assert(piece.contains(piece[k]));
                    }
                }
            }
        }
    }
}

pub proof fn lemma_lines_have_no_feed(content: Seq<char>)
    ensures
        forall|i: int|
            0 <= i < lines_of(content).len() ==> !(#[trigger] lines_of(content)[i]).contains('\n'),
{
    let pieces = split_at(content, '\n');
    lemma_split_nonempty(content, '\n');
    lemma_pieces_have_no_separator(content, '\n');
    assert forall|i: int| 0 <= i < lines_of(content).len() implies !(#[trigger] lines_of(
        content,
    )[i]).contains('\n') by {
        let piece = pieces[i];
        let line = lines_of(content)[i];
        assert(!piece.contains('\n'));
        assert forall|k: int| 0 <= k < line.len() implies line[k] != '\n' by {
            assert(line[k] == piece[k]);
            assert(piece.contains(piece[k]));
        }
    }
}

proof fn lemma_skipped_within(s: Seq<char>, set: CharSet, c: char)
    ensures
        skip_leading(s, set).contains(c) ==> s.contains(c),
        skip_trailing(s, set).contains(c) ==> s.contains(c),
    decreases s.len(),
{
    if s.len() > 0 {
        lemma_skipped_within(s.drop_first(), set, c);
        lemma_skipped_within(s.drop_last(), set, c);
        if s.drop_first().contains(c) {
            let k = choose|k: int| 0 <= k < s.len() - 1 && s.drop_first()[k] == c;
            assert(s[k + 1] == c);
        }
        if s.drop_last().contains(c) {
            let k = choose|k: int| 0 <= k < s.len() - 1 && s.drop_last()[k] == c;
            assert(s[k] == c);
        }
    }
}

/// Trimming brings in no character.
pub proof fn lemma_trimmed_within(s: Seq<char>, c: char)
    requires
        !s.contains(c),
    ensures
        !trimmed(s).contains(c),
{
    lemma_skipped_within(s, CharSet::Whitespace, c);
    lemma_skipped_within(skip_leading(s, CharSet::Whitespace), CharSet::Whitespace, c);
}

/// Which characters the sets hold.
pub proof fn char_sets_hold_their_characters(c: char)
    ensures
        is_whitespace(c) <==> seq![
            0x9int,
            0xA,
            0xB,
            0xC,
            0xD,
            0x20,
            0x85,
            0xA0,
            0x1680,
            0x2000,
            0x2001,
            0x2002,
            0x2003,
            0x2004,
            0x2005,
            0x2006,
            0x2007,
            0x2008,
            0x2009,
            0x200A,
            0x2028,
            0x2029,
            0x202F,
            0x205F,
            0x3000,
        ].contains(c as int),
        CharSet::Whitespace.has(c) <==> is_whitespace(c),
        CharSet::Brackets.has(c) <==> "[](){}"@.contains(c),
        CharSet::Trailers.has(c) <==> "-|,."@.contains(c),
        CharSet::Separators.has(c) <==> "-|: "@.contains(c),
        CharSet::LineFeed.has(c) <==> c as int == 10,
{
    reveal_strlit("[](){}");
    reveal_strlit("-|,.");
    reveal_strlit("-|: ");
    let spaces = seq![
        0x9int,
        0xA,
        0xB,
        0xC,
        0xD,
        0x20,
        0x85,
        0xA0,
        0x1680,
        0x2000,
        0x2001,
        0x2002,
        0x2003,
        0x2004,
        0x2005,
        0x2006,
        0x2007,
        0x2008,
        0x2009,
        0x200A,
        0x2028,
        0x2029,
        0x202F,
        0x205F,
        0x3000,
    ];
    let n = c as int;
    if 0x9 <= n <= 0xD {
        assert(spaces[n - 0x9] == n);
    } else if 0x2000 <= n <= 0x200A {
        assert(spaces[9 + n - 0x2000] == n);
    } else if is_whitespace(c) {
        assert(spaces[5] == 0x20 && spaces[6] == 0x85 && spaces[7] == 0xA0 && spaces[8] == 0x1680
            && spaces[20] == 0x2028 && spaces[21] == 0x2029 && spaces[22] == 0x202F && spaces[23]
            == 0x205F && spaces[24] == 0x3000);
    }
    let brackets = "[](){}"@;
    assert(brackets[0] == '[' && brackets[1] == ']' && brackets[2] == '(' && brackets[3] == ')'
        && brackets[4] == '{' && brackets[5] == '}');
    let trailers = "-|,."@;
    assert(trailers[0] == '-' && trailers[1] == '|' && trailers[2] == ',' && trailers[3] == '.');
    let separators = "-|: "@;
    assert(separators[0] == '-' && separators[1] == '|' && separators[2] == ':' && separators[3]
        == ' ');
}

proof fn lemma_leading_run(a: Seq<char>, b: Seq<char>, set: CharSet)
    requires
        forall|i: int| 0 <= i < a.len() ==> set.has(#[trigger] a[i]),
        b.len() > 0 ==> !set.has(b[0]),
    ensures
        skip_leading(a + b, set) == b,
    decreases a.len(),
{
    let s = a + b;
    if a.len() == 0 {
        assert(s =~= b);
    } else {
        assert(s[0] == a[0]);
        assert(s.drop_first() =~= a.drop_first() + b);
        lemma_leading_run(a.drop_first(), b, set);
    }
}

proof fn lemma_trailing_run(a: Seq<char>, b: Seq<char>, set: CharSet)
    requires
        forall|i: int| 0 <= i < b.len() ==> set.has(#[trigger] b[i]),
        a.len() > 0 ==> !set.has(a.last()),
    ensures
        skip_trailing(a + b, set) == a,
    decreases b.len(),
{
    let s = a + b;
    if b.len() == 0 {
        assert(s =~= a);
    } else {
        assert(s.last() == b[b.len() - 1]);
        assert(s.drop_last() =~= a + b.drop_last());
        lemma_trailing_run(a, b.drop_last(), set);
    }
}

/// What characters of a set stand round a text is taken off, and nothing of the text itself,
/// where neither of its ends is of the set.
pub proof fn padding_is_taken_off(before: Seq<char>, text: Seq<char>, after: Seq<char>, set: CharSet)
    requires
        forall|i: int| 0 <= i < before.len() ==> set.has(#[trigger] before[i]),
        forall|i: int| 0 <= i < after.len() ==> set.has(#[trigger] after[i]),
        text.len() > 0 ==> !set.has(text[0]) && !set.has(text.last()),
    ensures
        trimmed_by(before + text + after, set) == text,
        text.len() > 0 ==> skip_leading(before + text + after, set) == text + after,
        text.len() > 0 ==> skip_trailing(before + text + after, set) == before + text,
        set == CharSet::Whitespace ==> trimmed(before + text + after) == text,
        set == CharSet::Whitespace ==> (is_blank(before + text + after) <==> text.len() == 0),
{
    let all = before + text + after;
    if text.len() == 0 {
        assert(all =~= (before + after) + text);
        assert forall|i: int| 0 <= i < (before + after).len() implies set.has(
            #[trigger] (before + after)[i],
        ) by {
            if i < before.len() {
                assert((before + after)[i] == before[i]);
            } else {
                assert((before + after)[i] == after[i - before.len()]);
            }
        }
        lemma_leading_run(before + after, text, set);
        assert(skip_trailing(text, set) =~= text);
    } else {
        assert(all =~= before + (text + after));
        assert((text + after)[0] == text[0]);
        lemma_leading_run(before, text + after, set);
        lemma_trailing_run(text, after, set);
        assert((before + text).last() == text.last());
        lemma_trailing_run(before + text, after, set);
    }
}

/// Every text is a core between two runs of characters of a set; the core is what trimming
/// leaves.
pub proof fn lemma_core(s: Seq<char>, set: CharSet) -> (bounds: (int, int))
    ensures
        0 <= bounds.0 <= bounds.1 <= s.len(),
        trimmed_by(s, set) == s.subrange(bounds.0, bounds.1),
        forall|i: int| 0 <= i < bounds.0 ==> set.has(#[trigger] s[i]),
        forall|i: int| bounds.1 <= i < s.len() ==> set.has(#[trigger] s[i]),
        bounds.0 < bounds.1 ==> !set.has(s[bounds.0]) && !set.has(s[bounds.1 - 1]),
    decreases s.len(),
{
    if s.len() > 0 && set.has(s[0]) {
        let rest = s.drop_first();
        let inner = lemma_core(rest, set);
        let bounds = (inner.0 + 1, inner.1 + 1);
        assert(s.subrange(bounds.0, bounds.1) =~= rest.subrange(inner.0, inner.1));
        assert forall|i: int| 0 <= i < bounds.0 implies set.has(#[trigger] s[i]) by {
            if i > 0 {
                assert(rest[i - 1] == s[i]);
            }
        }
        assert forall|i: int| bounds.1 <= i < s.len() implies set.has(#[trigger] s[i]) by {
            assert(rest[i - 1] == s[i]);
        }
        bounds
    } else if s.len() > 0 && set.has(s.last()) {
        let rest = s.drop_last();
        let inner = lemma_core(rest, set);
        assert(skip_leading(rest, set) == rest);
        assert(skip_leading(s, set) == s);
        assert(s.subrange(inner.0, inner.1) =~= rest.subrange(inner.0, inner.1));
        assert forall|i: int| 0 <= i < inner.0 implies set.has(#[trigger] s[i]) by {
            assert(rest[i] == s[i]);
        }
        assert forall|i: int| inner.1 <= i < s.len() implies set.has(#[trigger] s[i]) by {
            if i < s.len() - 1 {
                assert(rest[i] == s[i]);
            }
        }
        inner
    } else {
        assert(s.subrange(0, s.len() as int) =~= s);
        (0, s.len() as int)
    }
}

/// A text with a separator in it has the pieces of what precedes it and of what follows it; one
/// without it is its own only piece.
pub proof fn pieces_part_at_separators(a: Seq<char>, b: Seq<char>, sep: char)
    ensures
        split_at(a + seq![sep] + b, sep) == split_at(a, sep) + split_at(b, sep),
        !a.contains(sep) ==> split_at(a, sep) == seq![a],
    decreases b.len(),
{
    lemma_split_nonempty(a, sep);
    lemma_split_nonempty(b, sep);
    if !a.contains(sep) {
        let one = seq![a];
        assert(!one[0].contains(sep));
        lemma_split_joined(one, sep);
    }
    let all = a + seq![sep] + b;
    if b.len() == 0 {
        assert(all.drop_last() =~= a);
        assert(split_at(b, sep) =~= seq![Seq::<char>::empty()]);
        assert(split_at(all, sep) =~= split_at(a, sep) + split_at(b, sep));
    } else {
        let front = b.drop_last();
        pieces_part_at_separators(a, front, sep);
        lemma_split_nonempty(front, sep);
        assert(all.drop_last() =~= a + seq![sep] + front);
        assert(all.last() == b.last());
        assert(split_at(all, sep) =~= split_at(a, sep) + split_at(b, sep));
    }
}

/// The lines of a text are those of its parts where it is parted behind a line feed; a text
/// without one is one line unless it is empty, and what ends a line, a line feed or a carriage
/// return and a line feed, is no part of it.
pub proof fn lines_part_at_line_feeds(a: Seq<char>, b: Seq<char>)
    ensures
        lines_of(a + seq!['\n'] + b) == lines_of(a + seq!['\n']) + lines_of(b),
        !a.contains('\n') ==> lines_of(a) == if a.len() == 0 {
            Seq::<Seq<char>>::empty()
        } else {
            seq![a]
        },
        !a.contains('\n') ==> lines_of(a + seq!['\r', '\n']) == seq![a],
        !a.contains('\n') && (a.len() > 0 ==> a.last() != '\r') ==> lines_of(a + seq!['\n'])
            == seq![a],
{
    let none = Seq::<char>::empty();
    let feed = seq!['\n'];
    lemma_split_nonempty(a, '\n');
    lemma_split_nonempty(b, '\n');
    pieces_part_at_separators(a, b, '\n');
    pieces_part_at_separators(a, none, '\n');
    assert(a + feed + none =~= a + feed);
    assert(split_at(none, '\n') =~= seq![none]);
    let (x, y) = (split_at(a, '\n'), split_at(b, '\n'));
    assert((x + seq![none]).drop_last() =~= x);
    assert((x + y).drop_last() =~= x + y.drop_last());
    assert((x + y).last() == y.last());
    let cut = |piece: Seq<char>| without_cr(piece);
    assert((x + y.drop_last()).map_values(cut) =~= x.map_values(cut) + y.drop_last().map_values(
        cut,
    ));
    assert(lines_of(a + feed) =~= x.map_values(cut));
    assert(lines_of(a + feed + b) =~= lines_of(a + feed) + lines_of(b));
    if !a.contains('\n') {
        assert(x == seq![a]);
        assert(x.drop_last().map_values(cut) =~= Seq::<Seq<char>>::empty());
        assert(x.map_values(cut) =~= seq![without_cr(a)]);
        let returned = a + seq!['\r'];
        assert forall|k: int| 0 <= k < returned.len() implies returned[k] != '\n' by {
            if k < a.len() {
                assert(a.contains(a[k]));
                assert(returned[k] == a[k]);
            }
        }
        pieces_part_at_separators(returned, none, '\n');
        assert(returned + feed + none =~= a + seq!['\r', '\n']);
        let z = split_at(returned, '\n');
        assert(z == seq![returned]);
        assert((z + seq![none]).drop_last() =~= z);
        assert(without_cr(returned) =~= a);
        assert(z.map_values(cut) =~= seq![a]);
        assert(lines_of(a + seq!['\r', '\n']) =~= seq![a]);
        assert(lines_of(a) =~= if a.len() == 0 {
            Seq::<Seq<char>>::empty()
        } else {
            seq![a]
        });
    }
}

/// The words of a text are those of its parts where it is parted at whitespace; a text without
/// whitespace is one word unless it is empty.
pub proof fn words_part_at_whitespace(a: Seq<char>, space: char, b: Seq<char>)
    requires
        is_whitespace(space),
    ensures
        words_of(a + seq![space] + b) == words_of(a) + words_of(b),
        (forall|i: int| 0 <= i < a.len() ==> !is_whitespace(#[trigger] a[i])) ==> words_of(a)
            == if a.len() == 0 {
            Seq::<Seq<char>>::empty()
        } else {
            seq![a]
        },
    decreases a.len() + b.len(),
{
    let all = a + seq![space] + b;
    if b.len() == 0 {
        assert(all.drop_last() =~= a);
        assert(words_of(all) =~= words_of(a) + words_of(b));
    } else {
        let front = b.drop_last();
        words_part_at_whitespace(a, space, front);
        assert(all.drop_last() =~= a + seq![space] + front);
        assert(all.last() == b.last());
        if b.len() > 1 {
            assert(all[all.len() - 2] == b[b.len() - 2]);
            lemma_word_open(front);
        } else {
            assert(all[all.len() - 2] == space);
        }
        assert(words_of(all) =~= words_of(a) + words_of(b));
    }
    if a.len() > 0 && (forall|i: int| 0 <= i < a.len() ==> !is_whitespace(#[trigger] a[i])) {
        let front = a.drop_last();
        assert forall|i: int| 0 <= i < front.len() implies !is_whitespace(#[trigger] front[i]) by {
            assert(front[i] == a[i]);
        }
        words_part_at_whitespace(front, space, Seq::empty());
        assert(!is_whitespace(a[a.len() - 1]));
        if a.len() > 1 {
            assert(!is_whitespace(a[a.len() - 2]));
            assert(seq![front].drop_last().push(front.push(a.last())) =~= seq![a]) by {
                assert(front.push(a.last()) =~= a);
            }
        } else {
            assert(seq![a.last()] =~= a);
            assert(words_of(a) =~= seq![a]);
        }
    }
}

proof fn lemma_word_open(s: Seq<char>)
    ensures
        s.len() > 0 && !is_whitespace(s.last()) ==> words_of(s).len() > 0,
{
}

/// Joined parts hold the parts before a place, a separator and the parts behind it; one part
/// alone is its own joining.
pub proof fn joining_puts_separators_between(
    a: Seq<Seq<char>>,
    b: Seq<Seq<char>>,
    part: Seq<char>,
    sep: Seq<char>,
)
    ensures
        joined(Seq::empty(), sep) == Seq::<char>::empty(),
        joined(seq![part], sep) == part,
        a.len() > 0 && b.len() > 0 ==> joined(a + b, sep) == joined(a, sep) + sep + joined(b, sep),
    decreases b.len(),
{
    if a.len() > 0 && b.len() > 0 {
        let front = b.drop_last();
        assert((a + b).drop_last() =~= a + front);
        assert((a + b).last() == b.last());
        if front.len() > 0 {
            joining_puts_separators_between(a, front, part, sep);
            assert(joined(a + b, sep) =~= joined(a, sep) + sep + joined(b, sep));
        } else {
            assert(a + front =~= a);
        }
    }
}

/// A character is replaced wherever it stands, and every other character stays.
pub proof fn replacing_goes_character_by_character(
    a: Seq<char>,
    b: Seq<char>,
    x: char,
    c: char,
    with: Seq<char>,
)
    ensures
        replaced(a + b, c, with) == replaced(a, c, with) + replaced(b, c, with),
        replaced(seq![x], c, with) == if x == c {
            with
        } else {
            seq![x]
        },
        replaced(Seq::empty(), c, with) == Seq::<char>::empty(),
        !a.contains(c) ==> replaced(a, c, with) == a,
    decreases a.len() + b.len(),
{
    let one = seq![x];
    let none = Seq::<char>::empty();
    assert(one.drop_last() =~= none);
    assert(replaced(none, c, with) =~= none);
    assert(none + with =~= with && none.push(x) =~= one);
    assert(replaced(one, c, with) =~= if x == c {
        with
    } else {
        one
    });
    if b.len() == 0 {
        assert(a + b =~= a);
        assert(replaced(a, c, with) + replaced(b, c, with) =~= replaced(a, c, with));
    } else {
        replacing_goes_character_by_character(a, b.drop_last(), x, c, with);
        assert((a + b).drop_last() =~= a + b.drop_last());
        assert((a + b).last() == b.last());
        assert(replaced(a + b, c, with) =~= replaced(a, c, with) + replaced(b, c, with));
    }
    if !a.contains(c) && a.len() > 0 {
        let front = a.drop_last();
        assert forall|i: int| 0 <= i < front.len() implies front[i] != c by {
            assert(a[i] == front[i]);
            assert(a.contains(a[i]));
        }
        replacing_goes_character_by_character(front, Seq::empty(), x, c, with);
        assert(a.contains(a[a.len() - 1]));
        assert(front.push(a.last()) =~= a);
    }
}

/// Texts are ordered by the first characters in which they differ; a text comes before those
/// that it begins.
pub proof fn order_goes_by_the_first_difference(
    start: Seq<char>,
    x: char,
    a: Seq<char>,
    y: char,
    b: Seq<char>,
)
    ensures
        x != y ==> (text_le(start.push(x) + a, start.push(y) + b) <==> (x as int) < (y as int)),
        text_le(start, start + a),
        a.len() > 0 ==> !text_le(start + a, start),
    decreases start.len(),
{
    let (s, t) = (start.push(x) + a, start.push(y) + b);
    if start.len() == 0 {
        assert(s[0] == x && t[0] == y);
    } else {
        let rest = start.drop_first();
        order_goes_by_the_first_difference(rest, x, a, y, b);
        assert(s[0] == start[0] && t[0] == start[0]);
        assert(s.drop_first() =~= rest.push(x) + a);
        assert(t.drop_first() =~= rest.push(y) + b);
        assert((start + a)[0] == start[0]);
        assert((start + a).drop_first() =~= rest + a);
    }
}

/// Digits begin with a zero only where they are those of nought.
pub proof fn digits_have_no_leading_zeros(n: nat)
    ensures
        decimal(n)[0] == '0' <==> n == 0,
        decimal(n).len() > 0,
        n < 10 ==> decimal(n).len() == 1,
        n >= 10 ==> decimal(n).len() == decimal(n / 10).len() + 1,
    decreases n,
{
    if n >= 10 {
        digits_have_no_leading_zeros(n / 10);
        assert(decimal(n)[0] == decimal(n / 10)[0]);
    } else {
        assert(digit_char(n) as int == 48 + n);
    }
}

/// A text is blank where each of its characters is whitespace.
pub proof fn blank_texts_are_whitespace(s: Seq<char>)
    ensures
        is_blank(s) <==> forall|i: int| 0 <= i < s.len() ==> is_whitespace(#[trigger] s[i]),
{
    let bounds = lemma_core(s, CharSet::Whitespace);
    if is_blank(s) {
        assert forall|i: int| 0 <= i < s.len() implies is_whitespace(#[trigger] s[i]) by {
            assert(CharSet::Whitespace.has(s[i]));
        }
    } else {
        assert(!CharSet::Whitespace.has(s[bounds.0]));
    }
}

/// Capitals of ASCII become small letters, and every other character stays as it is.
pub proof fn capitals_become_small(s: Seq<char>, i: int)
    requires
        0 <= i < s.len(),
    ensures
        ascii_lowered(s).len() == s.len(),
        65 <= s[i] as int <= 90 ==> ascii_lowered(s)[i] as int == s[i] as int + 32,
        !(65 <= s[i] as int <= 90) ==> ascii_lowered(s)[i] == s[i],
{
}

/// A text holds a pattern exactly where it is the pattern between two other texts.
pub proof fn texts_hold_what_stands_in_them(
    front: Seq<char>,
    pattern: Seq<char>,
    back: Seq<char>,
    s: Seq<char>,
)
    ensures
        has_text(front + pattern + back, pattern),
        has_text(s, pattern) ==> exists|i: int|
            0 <= i <= s.len() - pattern.len() && s == #[trigger] s.take(i) + pattern + s.skip(
                i + pattern.len(),
            ),
{
    let whole = front + pattern + back;
    let at = front.len() as int;
    assert(whole.subrange(at, at + pattern.len()) =~= pattern);
    assert(occurs_at(whole, pattern, at));
    if has_text(s, pattern) {
        let i = choose|i: int| occurs_at(s, pattern, i);
        let end = i + pattern.len();
        assert(s.subrange(i, end) == pattern);
        assert(s =~= s.take(i) + s.subrange(i, end) + s.skip(end));
    }
}

/// A number is read from digits alone, which a plus sign may precede, and only where there are
/// some and the number is no larger than the largest one.
pub proof fn numbers_are_read_from_digits(digits: Seq<char>, max: nat, d: nat)
    requires
        all_digits(digits),
        d < 10,
    ensures
        digits.len() > 0 && digits_value(digits) <= max ==> unsigned_value(digits, max) == Some(
            digits_value(digits),
        ) && unsigned_value(seq!['+'] + digits, max) == Some(digits_value(digits)),
        digits.len() == 0 || digits_value(digits) > max ==> unsigned_value(digits, max) is None
            && unsigned_value(seq!['+'] + digits, max) is None,
        digits_value(digits.push(digit_char(d))) == 10 * digits_value(digits) + d,
{
    assert((seq!['+'] + digits).skip(1) =~= digits);
    if digits.len() > 0 {
        assert(is_ascii_digit(digits[0]));
    }
    assert(digits.push(digit_char(d)).drop_last() =~= digits);
    assert(digit_char(d) as int == 48 + d);
}

/// A text with anything but digits behind its sign is no number.
pub proof fn other_texts_are_no_numbers(s: Seq<char>, i: int, max: nat)
    requires
        0 <= i < s.len(),
        !is_ascii_digit(s[i]),
        i > 0 || (s[i] != '+' && s[i] != '-'),
    ensures
        unsigned_value(s, max) is None,
        i64_value(s) is None,
{
    if s[0] == '+' || s[0] == '-' {
        assert(s.skip(1)[i - 1] == s[i]);
    }
}

} // verus!
