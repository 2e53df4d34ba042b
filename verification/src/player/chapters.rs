//! Chapters of a video, in the format that the player reads.

use crate::text::{
    all_digits, digits_value, is_ascii_digit, is_whitespace, lines, lines_of, opt_text,
    padding_is_taken_off, parse_unsigned, pieces_part_at_separators, replace, replaced,
    replacing_goes_character_by_character, signed_decimal, skip_leading, skip_trailing, split,
    split_at, split_whitespace, texts, to_signed_decimal, trim, trim_by, trim_end_by,
    trim_start_by, trimmed, trimmed_by, unsigned_value, words_of, words_part_at_whitespace,
    CharSet,
};
use vstd::arithmetic::div_mod::{
    lemma_div_multiples_vanish, lemma_fundamental_div_mod, lemma_mod_bound, lemma_mod_multiples_basic,
};
use vstd::prelude::*;

verus! {

/// A title as the format writes it: with backslashes before special characters, on one line.
pub open spec fn escaped(title: Seq<char>) -> Seq<char> {
    let backslashes = replaced(title, '\\', "\\\\"@);
    let equals = replaced(backslashes, '=', "\\="@);
    let semicolons = replaced(equals, ';', "\\;"@);
    let hashes = replaced(semicolons, '#', "\\#"@);
    replaced(hashes, '\n', " "@)
}

/// Escapes a title.
pub fn escape_ffmetadata(value: &str) -> (r: String)
    ensures
        r@ == escaped(value@),
{
    let backslashes = replace(value, '\\', "\\\\");
    let equals = replace(backslashes.as_str(), '=', "\\=");
    let semicolons = replace(equals.as_str(), ';', "\\;");
    let hashes = replace(semicolons.as_str(), '#', "\\#");
    replace(hashes.as_str(), '\n', " ")
}

proof fn lemma_replaced_is_gone(s: Seq<char>, c: char, with: Seq<char>)
    requires
        !with.contains(c),
    ensures
        !replaced(s, c, with).contains(c),
    decreases s.len(),
{
    if s.len() > 0 {
        lemma_replaced_is_gone(s.drop_last(), c, with);
        let before = replaced(s.drop_last(), c, with);
        assert forall|i: int| 0 <= i < replaced(s, c, with).len() implies replaced(s, c, with)[i]
            != c by {
            if i < before.len() {
                assert(before[i] != c);
            } else if s.last() == c {
                assert(with[i - before.len()] != c);
            }
        }
    }
}

/// An escaped title stays on one line.
pub proof fn escaped_titles_stay_on_one_line(title: Seq<char>)
    ensures
        !escaped(title).contains('\n'),
{
    reveal_strlit(" ");
    assert(!" "@.contains('\n'));
    let backslashes = replaced(title, '\\', "\\\\"@);
    let equals = replaced(backslashes, '=', "\\="@);
    let semicolons = replaced(equals, ';', "\\;"@);
    lemma_replaced_is_gone(replaced(semicolons, '#', "\\#"@), '\n', " "@);
}

proof fn lemma_replaced_add(a: Seq<char>, b: Seq<char>, c: char, with: Seq<char>)
    ensures
        replaced(a + b, c, with) == replaced(a, c, with) + replaced(b, c, with),
    decreases b.len(),
{
    if b.len() == 0 {
        assert(a + b =~= a);
        assert(replaced(a, c, with) + replaced(b, c, with) =~= replaced(a, c, with));
    } else {
        lemma_replaced_add(a, b.drop_last(), c, with);
        assert((a + b).drop_last() =~= a + b.drop_last());
        assert((a + b).last() == b.last());
        assert(replaced(a + b, c, with) =~= replaced(a, c, with) + replaced(b, c, with));
    }
}

/// A title is escaped piece by piece.
pub proof fn escaping_distributes(a: Seq<char>, b: Seq<char>)
    ensures
        escaped(a + b) == escaped(a) + escaped(b),
{
    let backslashes = |s: Seq<char>| replaced(s, '\\', "\\\\"@);
    let equals = |s: Seq<char>| replaced(backslashes(s), '=', "\\="@);
    let semicolons = |s: Seq<char>| replaced(equals(s), ';', "\\;"@);
    let hashes = |s: Seq<char>| replaced(semicolons(s), '#', "\\#"@);
    lemma_replaced_add(a, b, '\\', "\\\\"@);
    lemma_replaced_add(backslashes(a), backslashes(b), '=', "\\="@);
    lemma_replaced_add(equals(a), equals(b), ';', "\\;"@);
    lemma_replaced_add(semicolons(a), semicolons(b), '#', "\\#"@);
    lemma_replaced_add(hashes(a), hashes(b), '\n', " "@);
}

/// The parts of a time: without brackets round it and punctuation behind it, between colons.
pub open spec fn time_parts(raw: Seq<char>) -> Seq<Seq<char>> {
    split_at(skip_trailing(trimmed_by(raw, CharSet::Brackets), CharSet::Trailers), ':')
}

/// The number of seconds that parts of a time denote: minutes and seconds, or hours, minutes
/// and seconds.
pub open spec fn seconds_in(parts: Seq<Seq<char>>) -> Option<nat> {
    let max = u64::MAX as nat;
    if parts.len() == 2 {
        match (unsigned_value(parts[0], max), unsigned_value(parts[1], max)) {
            (Some(minutes), Some(seconds)) => Some(minutes * 60 + seconds),
            _ => None,
        }
    } else if parts.len() == 3 {
        match (
            unsigned_value(parts[0], max),
            unsigned_value(parts[1], max),
            unsigned_value(parts[2], max),
        ) {
            (Some(hours), Some(minutes), Some(seconds)) => Some(
                hours * 3600 + minutes * 60 + seconds,
            ),
            _ => None,
        }
    } else {
        None
    }
}

/// The largest distance between neighbours among the doubles of the size of `n`.
pub open spec fn double_unit(n: nat) -> nat
    decreases n,
{
    if n < 0x20_0000_0000_0000 {
        1
    } else {
        2 * double_unit(n / 2)
    }
}

/// The double nearest to a whole number; of two, the one with an even multiple.
pub open spec fn nearest_double(n: nat) -> nat {
    let unit = double_unit(n);
    let whole = n / unit;
    let rest = n % unit;
    if 2 * rest < unit || (2 * rest == unit && whole % 2 == 0) {
        whole * unit
    } else {
        (whole + 1) * unit
    }
}

/// Whether the number of seconds that a text denotes, if it denotes one, fits.
pub open spec fn time_fits(raw: Seq<char>) -> bool {
    match seconds_in(time_parts(raw)) {
        Some(seconds) => seconds <= u64::MAX,
        None => true,
    }
}

/// The number of seconds that a text denotes, as a double holds it.
pub open spec fn time_in(raw: Seq<char>) -> Option<nat> {
    match seconds_in(time_parts(raw)) {
        Some(seconds) => Some(nearest_double(seconds)),
        None => None,
    }
}

/// The unit of the doubles of the size of `n`, which is a power of two.
fn unit_of(n: u64) -> (unit: u64)
    ensures
        unit == double_unit(n as nat),
        0 < unit <= 2048,
        n / unit < 0x20_0000_0000_0000,
    decreases n,
{
    if n < 0x20_0000_0000_0000 {
        1
    } else {
        proof {
            lemma_unit_bound(n as nat, 0x1_0000_0000_0000_0000, 2048);
        }
        let half: u64 = unit_of(n / 2);
        proof {
            vstd::arithmetic::div_mod::lemma_div_denominator(n as int, 2, half as int);
        }
        2 * half
    }
}

proof fn lemma_unit_bound(n: nat, limit: nat, bound: nat)
    requires
        n < limit,
        limit == 0x1_0000_0000_0000_0000 && bound == 2048 || limit == 0x8000_0000_0000_0000 && bound
            == 1024 || limit == 0x4000_0000_0000_0000 && bound == 512 || limit
            == 0x2000_0000_0000_0000 && bound == 256 || limit == 0x1000_0000_0000_0000 && bound
            == 128 || limit == 0x800_0000_0000_0000 && bound == 64 || limit == 0x400_0000_0000_0000
            && bound == 32 || limit == 0x200_0000_0000_0000 && bound == 16 || limit
            == 0x100_0000_0000_0000 && bound == 8 || limit == 0x80_0000_0000_0000 && bound == 4
            || limit == 0x40_0000_0000_0000 && bound == 2 || limit == 0x20_0000_0000_0000 && bound
            == 1,
    ensures
        double_unit(n) <= bound,
    decreases n,
{
    if n >= 0x20_0000_0000_0000 {
        lemma_unit_bound(n / 2, limit / 2, bound / 2);
    }
}

/// A whole number as a double holds it.
pub fn round_to_double(n: u64) -> (r: u128)
    ensures
        r == nearest_double(n as nat),
{
    let unit: u64 = unit_of(n);
    let whole: u64 = n / unit;
    let rest: u64 = n % unit;
    let rounded: u64 = if 2 * rest < unit || (2 * rest == unit && whole % 2 == 0) {
        whole
    } else {
        whole + 1
    };
    assert(rounded * unit <= 0x20_0000_0000_0000 * 2048) by (nonlinear_arith)
        requires
            rounded <= 0x20_0000_0000_0000,
            unit <= 2048,
    ;
    (rounded as u128) * (unit as u128)
}

/// A number that a double holds exactly is kept.
pub proof fn small_numbers_are_doubles(n: nat)
    requires
        n < 0x20_0000_0000_0000,
    ensures
        nearest_double(n) == n,
{
    assert(double_unit(n) == 1);
    assert(n / 1 == n && n % 1 == 0);
}

fn time_part(part: &String) -> (r: Option<u64>)
    ensures
        match r {
            Some(n) => unsigned_value(part@, u64::MAX as nat) == Some(n as nat),
            None => unsigned_value(part@, u64::MAX as nat) is None,
        },
{
    parse_unsigned(part.as_str(), u64::MAX)
}

/// The whole number of seconds that a text denotes, wide enough for every text.
fn wide_seconds(raw: &str) -> (r: Option<u128>)
    ensures
        match r {
            Some(n) => seconds_in(time_parts(raw@)) == Some(n as nat),
            None => seconds_in(time_parts(raw@)) is None,
        },
{
    let token = trim_end_by(trim_by(raw, CharSet::Brackets), CharSet::Trailers);
    let parts = split(token, ':');
    assert(texts(parts@) == time_parts(raw@));
    assert(parts@.len() == time_parts(raw@).len());
    if parts.len() != 2 && parts.len() != 3 {
        return None;
    }
    assert(texts(parts@)[0] == parts@[0]@ && texts(parts@)[1] == parts@[1]@);
    let a = match time_part(&parts[0]) {
        Some(n) => n as u128,
        None => {
            return None;
        },
    };
    let b = match time_part(&parts[1]) {
        Some(n) => n as u128,
        None => {
            return None;
        },
    };
    if parts.len() == 2 {
        return Some(a * 60 + b);
    }
    assert(texts(parts@)[2] == parts@[2]@);
    match time_part(&parts[2]) {
        Some(n) => Some(a * 3600 + b * 60 + n as u128),
        None => None,
    }
}

/// The number of seconds that a text such as `1:02` or `[1:02:03]` denotes, as a double holds
/// it.
pub fn parse_time_token(raw: &str) -> (r: Option<u128>)
    requires
        time_fits(raw@),
    ensures
        match r {
            Some(n) => time_in(raw@) == Some(n as nat),
            None => time_in(raw@) is None,
        },
{
    match wide_seconds(raw) {
        Some(seconds) => Some(round_to_double(seconds as u64)),
        None => None,
    }
}

/// A chapter that a line of a description names: when it starts, in seconds, and its escaped
/// title.
#[derive(Debug)]
pub struct DescriptionChapter {
    pub start: u128,
    pub title: String,
}

/// What a [`DescriptionChapter`] holds.
#[verifier::ext_equal]
pub struct MarkView {
    pub start: nat,
    pub title: Seq<char>,
}

impl View for DescriptionChapter {
    type V = MarkView;

    open spec fn view(&self) -> MarkView {
        MarkView { start: self.start as nat, title: self.title@ }
    }
}

impl Clone for DescriptionChapter {
    fn clone(&self) -> (r: Self)
        ensures
            r == *self,
    {
        DescriptionChapter { start: self.start, title: self.title.clone() }
    }
}

pub open spec fn mark_views(marks: Seq<DescriptionChapter>) -> Seq<MarkView> {
    marks.map_values(|mark: DescriptionChapter| mark@)
}

/// The title that follows a time on a line.
pub open spec fn title_after(rest: Seq<char>) -> Seq<char> {
    let title = skip_leading(skip_leading(rest, CharSet::Whitespace), CharSet::Separators);
    if title.len() == 0 {
        escaped("Chapter"@)
    } else {
        escaped(title)
    }
}

/// The chapter that a line names: it begins with a time.
pub open spec fn mark_of_line(line: Seq<char>) -> Option<MarkView> {
    let line = trimmed(line);
    let words = words_of(line);
    if words.len() == 0 {
        None
    } else {
        match time_in(words[0]) {
            Some(start) => Some(
                MarkView { start, title: title_after(line.skip(words[0].len() as int)) },
            ),
            None => None,
        }
    }
}

/// Whether the time that a line begins with, if it does, fits.
pub open spec fn line_fits(line: Seq<char>) -> bool {
    let words = words_of(trimmed(line));
    words.len() > 0 ==> time_fits(words[0])
}

/// Whether all times that lines of a description begin with fit.
pub open spec fn times_fit(description: Seq<char>) -> bool {
    forall|i: int|
        0 <= i < lines_of(description).len() ==> line_fits(#[trigger] lines_of(description)[i])
}

/// The chapters that lines name, in the order of the lines.
pub open spec fn marks_of_lines(lines: Seq<Seq<char>>) -> Seq<MarkView>
    decreases lines.len(),
{
    if lines.len() == 0 {
        Seq::empty()
    } else {
        match mark_of_line(lines.last()) {
            Some(mark) => marks_of_lines(lines.drop_last()).push(mark),
            None => marks_of_lines(lines.drop_last()),
        }
    }
}

/// How many chapters at the front start no later than `start`.
pub open spec fn mark_slot(marks: Seq<MarkView>, start: nat) -> int
    decreases marks.len(),
{
    if marks.len() == 0 || start < marks[0].start {
        0
    } else {
        1 + mark_slot(marks.drop_first(), start)
    }
}

/// Chapters by their start; those of one start stay in their order.
pub open spec fn marks_in_order(marks: Seq<MarkView>) -> Seq<MarkView>
    decreases marks.len(),
{
    if marks.len() == 0 {
        Seq::empty()
    } else {
        let sorted = marks_in_order(marks.drop_last());
        sorted.insert(mark_slot(sorted, marks.last().start), marks.last())
    }
}

/// Of neighbours with one start, the first.
pub open spec fn without_repeats(marks: Seq<MarkView>) -> Seq<MarkView>
    decreases marks.len(),
{
    if marks.len() == 0 {
        Seq::empty()
    } else {
        let before = without_repeats(marks.drop_last());
        if before.len() > 0 && before.last().start == marks.last().start {
            before
        } else {
            before.push(marks.last())
        }
    }
}

/// The chapters that a description names.
pub open spec fn description_marks(description: Seq<char>) -> Seq<MarkView> {
    without_repeats(marks_in_order(marks_of_lines(lines_of(description))))
}

proof fn lemma_mark_slot(marks: Seq<MarkView>, start: nat)
    ensures
        0 <= mark_slot(marks, start) <= marks.len(),
        forall|k: int| 0 <= k < mark_slot(marks, start) ==> (#[trigger] marks[k]).start <= start,
        mark_slot(marks, start) < marks.len() ==> start < marks[mark_slot(marks, start)].start,
    decreases marks.len(),
{
    if marks.len() > 0 && start >= marks[0].start {
        let rest = marks.drop_first();
        lemma_mark_slot(rest, start);
        assert forall|k: int| 0 <= k < mark_slot(marks, start) implies (#[trigger] marks[k]).start
            <= start by {
            if k > 0 {
                assert(rest[k - 1] == marks[k]);
            }
        }
    }
}

proof fn lemma_marks_sorted(marks: Seq<MarkView>)
    ensures
        marks_in_order(marks).len() == marks.len(),
        forall|i: int, j: int|
            0 <= i < j < marks.len() ==> (#[trigger] marks_in_order(marks)[i]).start <= (
            #[trigger] marks_in_order(marks)[j]).start,
    decreases marks.len(),
{
    if marks.len() > 0 {
        let sorted = marks_in_order(marks.drop_last());
        let last = marks.last();
        let at = mark_slot(sorted, last.start);
        lemma_marks_sorted(marks.drop_last());
        lemma_mark_slot(sorted, last.start);
        let result = sorted.insert(at, last);
        assert forall|i: int, j: int| 0 <= i < j < marks.len() implies (
        #[trigger] result[i]).start <= (#[trigger] result[j]).start by {
            if i == at {
                assert(result[j] == sorted[j - 1]);
                assert(sorted[at].start <= sorted[j - 1].start || j - 1 == at);
            } else if j == at {
                assert(result[i] == sorted[i]);
            } else {
                let x = if i < at { i } else { i - 1 };
                let y = if j < at { j } else { j - 1 };
                assert(result[i] == sorted[x] && result[j] == sorted[y]);
            }
        }
    }
}

proof fn lemma_no_repeats(marks: Seq<MarkView>)
    requires
        forall|i: int, j: int|
            0 <= i < j < marks.len() ==> (#[trigger] marks[i]).start <= (
            #[trigger] marks[j]).start,
    ensures
        marks.len() > 0 ==> without_repeats(marks).len() > 0 && without_repeats(marks).last().start
            == marks.last().start,
        forall|i: int, j: int|
            0 <= i < j < without_repeats(marks).len() ==> (#[trigger] without_repeats(
                marks,
            )[i]).start < (#[trigger] without_repeats(marks)[j]).start,
    decreases marks.len(),
{
    if marks.len() > 0 {
        let front = marks.drop_last();
        assert forall|i: int, j: int| 0 <= i < j < front.len() implies (
        #[trigger] front[i]).start <= (#[trigger] front[j]).start by {
            assert(front[i] == marks[i] && front[j] == marks[j]);
        }
        lemma_no_repeats(front);
        let before = without_repeats(front);
        let after = without_repeats(marks);
        if front.len() > 0 {
            assert(front.last() == marks[marks.len() - 2]);
            assert(marks[marks.len() - 2].start <= marks[marks.len() - 1].start);
        }
        assert forall|i: int, j: int| 0 <= i < j < after.len() implies (
        #[trigger] after[i]).start < (#[trigger] after[j]).start by {
            if j < before.len() {
                assert(after[i] == before[i] && after[j] == before[j]);
            } else {
                assert(after[i] == before[i]);
                if i < before.len() - 1 {
                    assert(before[i].start < before[before.len() - 1].start);
                }
            }
        }
    }
}

/// The chapters of a description start one after another, each at a time of its own.
pub proof fn description_chapters_start_one_after_another(description: Seq<char>)
    ensures
        forall|i: int, j: int|
            0 <= i < j < description_marks(description).len() ==> (#[trigger] description_marks(
                description,
            )[i]).start < (#[trigger] description_marks(description)[j]).start,
{
    let found = marks_of_lines(lines_of(description));
    lemma_marks_sorted(found);
    lemma_no_repeats(marks_in_order(found));
}

fn description_chapter(line: &str) -> (r: Option<DescriptionChapter>)
    requires
        line_fits(line@),
    ensures
        match r {
            Some(mark) => Some(mark@),
            None => None,
        } == mark_of_line(line@),
{
    let line = trim(line);
    let words = split_whitespace(line);
    assert(words@.len() == words_of(line@).len());
    if words.len() == 0 {
        return None;
    }
    assert(texts(words@)[0] == words@[0]@);
    let start = match parse_time_token(words[0].as_str()) {
        Some(start) => start,
        None => {
            return None;
        },
    };
    let from: usize = words[0].as_str().unicode_len();
    let end: usize = line.unicode_len();
    proof {
        lemma_first_word(line@);
    }
    let rest = line.substring_char(from, end);
    assert(rest@ =~= line@.skip(from as int));
    let title = trim_start_by(trim_start_by(rest, CharSet::Whitespace), CharSet::Separators);
    let title = if title.is_empty() {
        escape_ffmetadata("Chapter")
    } else {
        escape_ffmetadata(title)
    };
    Some(DescriptionChapter { start, title })
}

proof fn lemma_first_word(s: Seq<char>)
    ensures
        words_of(s).len() > 0 ==> words_of(s)[0].len() <= s.len(),
    decreases s.len(),
{
    if s.len() > 0 {
        lemma_first_word(s.drop_last());
        let words = words_of(s.drop_last());
        if !crate::text::is_whitespace(s.last()) && s.len() > 1 && !crate::text::is_whitespace(
            s[s.len() - 2],
        ) {
            lemma_last_word(s.drop_last());
            if words.len() == 1 {
                assert(words.last() == words[0]);
            } else {
                assert(words_of(s)[0] == words[0]);
            }
        } else if words.len() > 0 {
            assert(words_of(s)[0] == words[0]);
        }
    }
}

proof fn lemma_last_word(s: Seq<char>)
    ensures
        s.len() > 0 && !crate::text::is_whitespace(s.last()) ==> words_of(s).len() > 0,
{
}

/// Whether all times that lines of a description begin with fit.
pub fn description_times_fit(description: &str) -> (r: bool)
    ensures
        r == times_fit(description@),
{
    let all_lines = lines(description);
    let mut i: usize = 0;
    while i < all_lines.len()
        invariant
            i <= all_lines.len(),
            texts(all_lines@) == lines_of(description@),
            forall|k: int| 0 <= k < i ==> line_fits(#[trigger] lines_of(description@)[k]),
        decreases all_lines.len() - i,
    {
        assert(texts(all_lines@)[i as int] == all_lines@[i as int]@);
        let words = split_whitespace(trim(all_lines[i].as_str()));
        assert(words@.len() == texts(words@).len());
        if words.len() > 0 {
            assert(texts(words@)[0] == words@[0]@);
            if let Some(seconds) = wide_seconds(words[0].as_str()) {
                if seconds > u64::MAX as u128 {
                    assert(!line_fits(lines_of(description@)[i as int]));
                    return false;
                }
            }
        }
        i += 1;
    }
    true
}

/// The chapters that a description names, one after another.
pub fn parse_description_chapters(description: &str) -> (chapters: Vec<DescriptionChapter>)
    requires
        times_fit(description@),
    ensures
        mark_views(chapters@) == description_marks(description@),
{
    let all_lines = lines(description);
    let ghost all = lines_of(description@);
    let mut sorted: Vec<DescriptionChapter> = Vec::new();
    let mut i: usize = 0;
    assert(mark_views(sorted@) =~= marks_in_order(marks_of_lines(all.take(0))));
    while i < all_lines.len()
        invariant
            i <= all_lines.len(),
            all == lines_of(description@),
            texts(all_lines@) == all,
            times_fit(description@),
            mark_views(sorted@) == marks_in_order(marks_of_lines(all.take(i as int))),
        decreases all_lines.len() - i,
    {
        let ghost before = mark_views(sorted@);
        let ghost found = marks_of_lines(all.take(i as int));
        assert(all.take(i + 1).drop_last() =~= all.take(i as int));
        assert(all.take(i + 1).last() == all_lines@[i as int]@);
        assert(line_fits(all[i as int]));
        if let Some(mark) = description_chapter(all_lines[i].as_str()) {
            let mut at: usize = 0;
            assert(before.skip(0) =~= before);
            while at < sorted.len() && mark.start >= sorted[at].start
                invariant
                    at <= sorted.len(),
                    before == mark_views(sorted@),
                    mark_slot(before, mark@.start) == at + mark_slot(
                        before.skip(at as int),
                        mark@.start,
                    ),
                decreases sorted.len() - at,
            {
                assert(before.skip(at as int)[0] == sorted@[at as int]@);
                assert(before.skip(at as int).drop_first() =~= before.skip(at + 1));
                at += 1;
            }
            assert(at < sorted.len() ==> before.skip(at as int)[0] == sorted@[at as int]@);
            let ghost view = mark@;
            sorted.insert(at, mark);
            assert(mark_views(sorted@) =~= before.insert(at as int, view));
            assert(found.push(view).drop_last() =~= found);
        }
        i += 1;
    }
    assert(all.take(all.len() as int) =~= all);
    let ghost ordered = mark_views(sorted@);
    let mut chapters: Vec<DescriptionChapter> = Vec::new();
    let mut j: usize = 0;
    assert(mark_views(chapters@) =~= without_repeats(ordered.take(0)));
    while j < sorted.len()
        invariant
            j <= sorted.len(),
            ordered == mark_views(sorted@),
            mark_views(chapters@) == without_repeats(ordered.take(j as int)),
        decreases sorted.len() - j,
    {
        let ghost before = mark_views(chapters@);
        assert(ordered.take(j + 1).drop_last() =~= ordered.take(j as int));
        assert(ordered.take(j + 1).last() == sorted@[j as int]@);
        let repeated = if chapters.len() > 0 {
            assert(before.last() == chapters@[chapters@.len() - 1]@);
            chapters[chapters.len() - 1].start == sorted[j].start
        } else {
            false
        };
        if !repeated {
            let mark = sorted[j].clone();
            chapters.push(mark);
            assert(mark_views(chapters@) =~= before.push(mark@));
        }
        j += 1;
    }
    assert(ordered.take(ordered.len() as int) =~= ordered);
    chapters
}

/// A time in a video, for which integers stand: its place in the order of times, itself in
/// milliseconds, and the time one second later in milliseconds.
#[derive(Debug, Clone, Copy, PartialEq, Eq, Structural)]
pub struct ChapterTime {
    pub order: i64,
    pub millis: i64,
    pub next_millis: i64,
}

/// A chapter as the downloader's info file has it.
#[derive(Debug)]
pub struct InfoChapter {
    pub start_time: Option<ChapterTime>,
    pub end_time: Option<ChapterTime>,
    pub title: Option<String>,
}

/// What the downloader's info file says of a video's chapters.
#[derive(Debug)]
pub struct InfoJson {
    pub chapters: Vec<InfoChapter>,
    pub description: Option<String>,
}

/// Where chapters come from: the info file, or, where that has none, the description.
#[derive(Debug)]
pub enum ChapterSource {
    Info(Vec<Chapter>),
    Description(Vec<DescriptionChapter>),
}

/// A chapter: its start, its end where one is given, and its escaped title.
#[derive(Debug)]
pub struct Chapter {
    pub start: ChapterTime,
    pub end: Option<ChapterTime>,
    pub title: String,
}

/// What a [`Chapter`] holds.
#[verifier::ext_equal]
pub struct ChapterView {
    pub start: ChapterTime,
    pub end: Option<ChapterTime>,
    pub title: Seq<char>,
}

impl View for Chapter {
    type V = ChapterView;

    open spec fn view(&self) -> ChapterView {
        ChapterView { start: self.start, end: self.end, title: self.title@ }
    }
}

pub open spec fn chapter_views(chapters: Seq<Chapter>) -> Seq<ChapterView> {
    chapters.map_values(|chapter: Chapter| chapter@)
}

/// The chapters of an info file that have a start.
pub open spec fn info_chapters(chapters: Seq<InfoChapter>) -> Seq<ChapterView>
    decreases chapters.len(),
{
    if chapters.len() == 0 {
        Seq::empty()
    } else {
        let before = info_chapters(chapters.drop_last());
        let chapter = chapters.last();
        match chapter.start_time {
            Some(start) => before.push(
                ChapterView {
                    start,
                    end: chapter.end_time,
                    title: match chapter.title {
                        Some(title) => escaped(title@),
                        None => "Chapter"@,
                    },
                },
            ),
            None => before,
        }
    }
}

/// The chapters of a video.
pub fn collect_chapters(info: &InfoJson) -> (source: ChapterSource)
    requires
        info.chapters@.len() == 0 ==> match info.description {
            Some(description) => times_fit(description@),
            None => true,
        },
    ensures
        info.chapters@.len() > 0 ==> (source matches ChapterSource::Info(chapters)
            && chapter_views(chapters@) == info_chapters(info.chapters@)),
        info.chapters@.len() == 0 ==> (source matches ChapterSource::Description(chapters)
            && mark_views(chapters@) == match info.description {
            Some(description) => description_marks(description@),
            None => Seq::empty(),
        }),
{
    if info.chapters.len() == 0 {
        let chapters = match &info.description {
            Some(description) => parse_description_chapters(description.as_str()),
            None => Vec::new(),
        };
        assert(info.description is None ==> mark_views(chapters@) =~= Seq::empty());
        return ChapterSource::Description(chapters);
    }
    let ghost all = info.chapters@;
    let mut chapters: Vec<Chapter> = Vec::new();
    let mut i: usize = 0;
    assert(chapter_views(chapters@) =~= info_chapters(all.take(0)));
    while i < info.chapters.len()
        invariant
            i <= info.chapters.len(),
            all == info.chapters@,
            chapter_views(chapters@) == info_chapters(all.take(i as int)),
        decreases info.chapters.len() - i,
    {
        let ghost before = chapter_views(chapters@);
        assert(all.take(i + 1).drop_last() =~= all.take(i as int));
        let given = &info.chapters[i];
        if let Some(start) = given.start_time {
            let title = match &given.title {
                Some(title) => escape_ffmetadata(title.as_str()),
                None => "Chapter".to_owned(),
            };
            let chapter = Chapter { start, end: given.end_time, title };
            chapters.push(chapter);
            assert(chapter_views(chapters@) =~= before.push(chapter@));
        }
        i += 1;
    }
    assert(all.take(all.len() as int) =~= all);
    ChapterSource::Info(chapters)
}

/// A time that is later than another one.
pub open spec fn if_later(time: Option<ChapterTime>, than: ChapterTime) -> Option<ChapterTime> {
    match time {
        Some(time) => if time.order > than.order {
            Some(time)
        } else {
            None
        },
        None => None,
    }
}

/// When a chapter ends, in milliseconds: at its own end, else where the next one starts, else
/// at the end of the video, if that is later than its start; else a second after its start.
pub open spec fn end_millis(
    chapters: Seq<ChapterView>,
    i: int,
    duration: Option<ChapterTime>,
) -> i64 {
    let start = chapters[i].start;
    let next = if i + 1 < chapters.len() {
        Some(chapters[i + 1].start)
    } else {
        None
    };
    match if_later(chapters[i].end, start) {
        Some(end) => end.millis,
        None => match if_later(next, start) {
            Some(end) => end.millis,
            None => match if_later(duration, start) {
                Some(end) => end.millis,
                None => start.next_millis,
            },
        },
    }
}

/// A chapter in the player's format.
pub open spec fn chapter_text(
    chapters: Seq<ChapterView>,
    i: int,
    duration: Option<ChapterTime>,
) -> Seq<char> {
    "[CHAPTER]\nTIMEBASE=1/1000\nSTART="@ + signed_decimal(chapters[i].start.millis as int)
        + "\nEND="@ + signed_decimal(end_millis(chapters, i, duration) as int) + "\ntitle="@
        + chapters[i].title + "\n"@
}

/// The first `n` chapters in the player's format, behind its heading.
pub open spec fn ffmetadata(
    chapters: Seq<ChapterView>,
    n: nat,
    duration: Option<ChapterTime>,
) -> Seq<char>
    decreases n,
{
    if n == 0 {
        ";FFMETADATA1\n"@
    } else {
        ffmetadata(chapters, (n - 1) as nat, duration) + chapter_text(chapters, n - 1, duration)
    }
}

fn later(time: Option<ChapterTime>, than: ChapterTime) -> (r: Option<ChapterTime>)
    ensures
        r == if_later(time, than),
{
    match time {
        Some(time) => if time.order > than.order {
            Some(time)
        } else {
            None
        },
        None => None,
    }
}

/// Chapters in the player's format, given how long the video is; nothing where there are none.
pub fn build_ffmetadata(chapters: &Vec<Chapter>, duration: Option<ChapterTime>) -> (r: Option<
    String,
>)
    ensures
        opt_text(r) == if chapters@.len() == 0 {
            None
        } else {
            Some(ffmetadata(chapter_views(chapters@), chapters@.len(), duration))
        },
{
    if chapters.len() == 0 {
        return None;
    }
    let ghost all = chapter_views(chapters@);
    let mut text = ";FFMETADATA1\n".to_owned();
    let mut i: usize = 0;
    while i < chapters.len()
        invariant
            i <= chapters.len(),
            all == chapter_views(chapters@),
            text@ == ffmetadata(all, i as nat, duration),
        decreases chapters.len() - i,
    {
        let chapter = &chapters[i];
        assert(all[i as int] == chapter@);
        let next = if i + 1 < chapters.len() {
            assert(all[i + 1] == chapters@[i + 1]@);
            Some(chapters[i + 1].start)
        } else {
            None
        };
        let end: i64 = match later(chapter.end, chapter.start) {
            Some(end) => end.millis,
            None => match later(next, chapter.start) {
                Some(end) => end.millis,
                None => match later(duration, chapter.start) {
                    Some(end) => end.millis,
                    None => chapter.start.next_millis,
                },
            },
        };
        let mut part = "[CHAPTER]\nTIMEBASE=1/1000\nSTART=".to_owned();
        part.append(to_signed_decimal(chapter.start.millis).as_str());
        part.append("\nEND=");
        part.append(to_signed_decimal(end).as_str());
        part.append("\ntitle=");
        part.append(chapter.title.as_str());
        part.append("\n");
        assert(part@ =~= chapter_text(all, i as int, duration));
        text.append(part.as_str());
        i += 1;
    }
    Some(text)
}

/// A special character of the format is written behind a backslash, a line feed as a space, and
/// every other character as it is.
pub proof fn special_characters_are_escaped(c: char)
    ensures
        escaped(seq![c]) == if c == '\\' || c == '=' || c == ';' || c == '#' {
            seq!['\\', c]
        } else if c == '\n' {
            seq![' ']
        } else {
            seq![c]
        },
        escaped(Seq::empty()) == Seq::<char>::empty(),
{
    reveal_strlit("\\\\");
    reveal_strlit("\\=");
    reveal_strlit("\\;");
    reveal_strlit("\\#");
    reveal_strlit(" ");
    assert("\\\\"@ =~= seq!['\\', '\\']);
    assert("\\="@ =~= seq!['\\', '=']);
    assert("\\;"@ =~= seq!['\\', ';']);
    assert("\\#"@ =~= seq!['\\', '#']);
    assert(" "@ =~= seq![' ']);
    let none = Seq::<char>::empty();
    let s0 = seq![c];
    replacing_goes_character_by_character(none, none, c, '\\', "\\\\"@);
    let s1 = replaced(s0, '\\', "\\\\"@);
    if c == '\\' {
        assert(!s1.contains('=') && !s1.contains(';') && !s1.contains('#') && !s1.contains('\n'));
    }
    replacing_goes_character_by_character(none, none, c, '=', "\\="@);
    replacing_goes_character_by_character(s1, none, c, '=', "\\="@);
    let s2 = replaced(s1, '=', "\\="@);
    if c == '=' {
        assert(!s2.contains(';') && !s2.contains('#') && !s2.contains('\n'));
    }
    replacing_goes_character_by_character(none, none, c, ';', "\\;"@);
    replacing_goes_character_by_character(s2, none, c, ';', "\\;"@);
    let s3 = replaced(s2, ';', "\\;"@);
    if c == ';' {
        assert(!s3.contains('#') && !s3.contains('\n'));
    }
    replacing_goes_character_by_character(none, none, c, '#', "\\#"@);
    replacing_goes_character_by_character(s3, none, c, '#', "\\#"@);
    let s4 = replaced(s3, '#', "\\#"@);
    if c == '#' {
        assert(!s4.contains('\n'));
    }
    replacing_goes_character_by_character(none, none, c, '\n', " "@);
    replacing_goes_character_by_character(s4, none, c, '\n', " "@);
    assert(escaped(s0) == replaced(s4, '\n', " "@));
}

/// The chapters of an info file are all there, in their order: each that has a start, with its
/// own start, end and title.
pub proof fn chapters_come_one_by_one(a: Seq<InfoChapter>, b: Seq<InfoChapter>, chapter: InfoChapter)
    ensures
        info_chapters(a + b) == info_chapters(a) + info_chapters(b),
        chapter.start_time is None ==> info_chapters(seq![chapter]).len() == 0,
        chapter.start_time matches Some(start) ==> {
            let shown = info_chapters(seq![chapter]);
            &&& shown.len() == 1
            &&& shown[0].start == start
            &&& shown[0].end == chapter.end_time
            &&& chapter.title matches Some(title) ==> shown[0].title == escaped(title@)
            &&& chapter.title is None ==> shown[0].title == "Chapter"@
        },
    decreases b.len(),
{
    assert(seq![chapter].drop_last() =~= Seq::empty());
    assert(info_chapters(Seq::empty()) =~= Seq::<ChapterView>::empty());
    if b.len() == 0 {
        assert(a + b =~= a);
        assert(info_chapters(a) + info_chapters(b) =~= info_chapters(a));
    } else {
        chapters_come_one_by_one(a, b.drop_last(), chapter);
        assert((a + b).drop_last() =~= a + b.drop_last());
        assert((a + b).last() == b.last());
        assert(info_chapters(a + b) =~= info_chapters(a) + info_chapters(b));
    }
}

/// Where every chapter of an info file has a start, there are as many chapters, each at its
/// place; in general there are as many as have a start.
pub proof fn no_chapter_is_lost(chapters: Seq<InfoChapter>)
    ensures
        info_chapters(chapters).len() == chapters.filter(
            |chapter: InfoChapter| chapter.start_time is Some,
        ).len(),
        (forall|i: int| 0 <= i < chapters.len() ==> (#[trigger] chapters[i]).start_time is Some)
            ==> info_chapters(chapters).len() == chapters.len() && forall|i: int|
            #![trigger info_chapters(chapters)[i]]
            0 <= i < chapters.len() ==> Some(info_chapters(chapters)[i].start)
                == chapters[i].start_time && info_chapters(chapters)[i].end == chapters[i].end_time
                && info_chapters(chapters)[i].title == (match chapters[i].title {
                Some(title) => escaped(title@),
                None => "Chapter"@,
            }),
    decreases chapters.len(),
{
    let started = |chapter: InfoChapter| chapter.start_time is Some;
    reveal(Seq::filter);
    if chapters.len() > 0 {
        let front = chapters.drop_last();
        no_chapter_is_lost(front);
        assert(chapters.filter(started) == if started(chapters.last()) {
            front.filter(started).push(chapters.last())
        } else {
            front.filter(started)
        });
        if forall|i: int| 0 <= i < chapters.len() ==> (#[trigger] chapters[i]).start_time is Some {
            assert forall|i: int| 0 <= i < front.len() implies (
            #[trigger] front[i]).start_time is Some by {
                assert(front[i] == chapters[i]);
            }
            assert(chapters[chapters.len() - 1].start_time is Some);
            assert forall|i: int| #![trigger info_chapters(chapters)[i]] 0 <= i < chapters.len() implies Some(
            info_chapters(chapters)[i].start) == chapters[i].start_time && info_chapters(
                chapters,
            )[i].end == chapters[i].end_time && info_chapters(chapters)[i].title == (
            match chapters[i].title {
                Some(title) => escaped(title@),
                None => "Chapter"@,
            }) by {
                if i < front.len() {
                    assert(info_chapters(chapters)[i] == info_chapters(front)[i]);
                    assert(front[i] == chapters[i]);
                }
            }
        }
    }
}

/// The file for the player is its heading and a block for each chapter, in their order: its
/// start, its end and its title.
pub proof fn each_chapter_has_a_block(
    chapters: Seq<ChapterView>,
    n: nat,
    duration: Option<ChapterTime>,
)
    requires
        n < chapters.len(),
    ensures
        ffmetadata(chapters, 0, duration) == ";FFMETADATA1\n"@,
        ffmetadata(chapters, (n + 1) as nat, duration) == ffmetadata(chapters, n, duration)
            + "[CHAPTER]\nTIMEBASE=1/1000\nSTART="@ + signed_decimal(
            chapters[n as int].start.millis as int,
        ) + "\nEND="@ + signed_decimal(end_millis(chapters, n as int, duration) as int)
            + "\ntitle="@ + chapters[n as int].title + "\n"@,
{
    assert(ffmetadata(chapters, (n + 1) as nat, duration) =~= ffmetadata(chapters, n, duration)
        + "[CHAPTER]\nTIMEBASE=1/1000\nSTART="@ + signed_decimal(
        chapters[n as int].start.millis as int,
    ) + "\nEND="@ + signed_decimal(end_millis(chapters, n as int, duration) as int) + "\ntitle="@
        + chapters[n as int].title + "\n"@);
}

/// A chapter ends at its own end where that is later than its start; otherwise where the next
/// one starts, then at the end of the video, where these are later; and otherwise a second
/// after it started.
pub proof fn chapters_end_later_than_they_start(
    chapters: Seq<ChapterView>,
    i: int,
    duration: Option<ChapterTime>,
    time: ChapterTime,
)
    requires
        0 <= i < chapters.len(),
    ensures
        chapters[i].end == Some(time) && time.order > chapters[i].start.order ==> end_millis(
            chapters,
            i,
            duration,
        ) == time.millis,
        (chapters[i].end matches Some(end) ==> end.order <= chapters[i].start.order) ==> {
            &&& i + 1 < chapters.len() && chapters[i + 1].start.order > chapters[i].start.order
                ==> end_millis(chapters, i, duration) == chapters[i + 1].start.millis
            &&& i + 1 == chapters.len() || chapters[i + 1].start.order <= chapters[i].start.order
                ==> {
                &&& duration == Some(time) && time.order > chapters[i].start.order ==> end_millis(
                    chapters,
                    i,
                    duration,
                ) == time.millis
                &&& duration is None || duration == Some(time) && time.order
                    <= chapters[i].start.order ==> end_millis(chapters, i, duration)
                    == chapters[i].start.next_millis
            }
        },
{
}

/// A time is minutes and seconds, or hours, minutes and seconds, in digits between colons, and
/// may stand in brackets and before punctuation.
pub proof fn times_are_read_by_their_digits(a: Seq<char>, b: Seq<char>, c: Seq<char>)
    requires
        a.len() > 0 && all_digits(a) && digits_value(a) <= u64::MAX,
        b.len() > 0 && all_digits(b) && digits_value(b) <= u64::MAX,
        c.len() > 0 && all_digits(c) && digits_value(c) <= u64::MAX,
    ensures
        ({
            let short = a + seq![':'] + b;
            let long = a + seq![':'] + b + seq![':'] + c;
            let seconds = digits_value(a) * 60 + digits_value(b);
            let more = digits_value(a) * 3600 + digits_value(b) * 60 + digits_value(c);
            &&& seconds < 0x20_0000_0000_0000 ==> time_in(short) == Some(seconds)
            &&& seconds < 0x20_0000_0000_0000 ==> time_in(seq!['['] + short + seq![']'])
                == Some(seconds)
            &&& seconds < 0x20_0000_0000_0000 ==> time_in(seq!['('] + short + seq![')'])
                == Some(seconds)
            &&& seconds < 0x20_0000_0000_0000 ==> time_in(short + seq!['-']) == Some(seconds)
            &&& more < 0x20_0000_0000_0000 ==> time_in(long) == Some(more)
            &&& time_in(a) is None
        }),
{
    let short = a + seq![':'] + b;
    let long = short + seq![':'] + c;
    let none = Seq::<char>::empty();
    assert(long =~= a + seq![':'] + (b + seq![':'] + c));
    lemma_digit_ends(a);
    lemma_digit_ends(b);
    lemma_digit_ends(c);
    assert(short[0] == a[0] && short.last() == b.last());
    assert(long[0] == a[0] && long.last() == c.last());
    lemma_plain_token(a);
    lemma_plain_token(short);
    lemma_plain_token(long);
    pieces_part_at_separators(a, b, ':');
    pieces_part_at_separators(b, c, ':');
    pieces_part_at_separators(c, none, ':');
    pieces_part_at_separators(a, b + seq![':'] + c, ':');
    assert(split_at(short, ':') =~= seq![a, b]);
    assert(split_at(long, ':') =~= seq![a, b, c]);
    assert(a[0] != '+' && b[0] != '+' && c[0] != '+');
    assert(seconds_in(seq![a, b]) == Some(digits_value(a) * 60 + digits_value(b)));
    assert(seconds_in(seq![a, b, c]) == Some(
        digits_value(a) * 3600 + digits_value(b) * 60 + digits_value(c),
    ));
    let seconds = digits_value(a) * 60 + digits_value(b);
    let more = digits_value(a) * 3600 + digits_value(b) * 60 + digits_value(c);
    if seconds < 0x20_0000_0000_0000 {
        small_numbers_are_doubles(seconds);
    }
    if more < 0x20_0000_0000_0000 {
        small_numbers_are_doubles(more);
    }
    padding_is_taken_off(seq!['['], short, seq![']'], CharSet::Brackets);
    padding_is_taken_off(seq!['('], short, seq![')'], CharSet::Brackets);
    padding_is_taken_off(none, short + seq!['-'], none, CharSet::Brackets);
    padding_is_taken_off(none, short, seq!['-'], CharSet::Trailers);
    assert(none + short + seq!['-'] =~= short + seq!['-']);
    assert(none + (short + seq!['-']) + none =~= short + seq!['-']);
    assert(none + short =~= short);
    assert(split_at(a, ':') =~= seq![a]);
}

proof fn lemma_digit_ends(s: Seq<char>)
    requires
        s.len() > 0 && all_digits(s),
    ensures
        !s.contains(':'),
        s[0] != '+',
        !CharSet::Brackets.has(s[0]) && !CharSet::Brackets.has(s.last()),
        !CharSet::Trailers.has(s[0]) && !CharSet::Trailers.has(s.last()),
{
    assert(is_ascii_digit(s[0]));
    assert(is_ascii_digit(s[s.len() - 1]));
    assert forall|i: int| 0 <= i < s.len() implies s[i] != ':' by {
        assert(is_ascii_digit(s[i]));
    }
}

proof fn lemma_plain_token(s: Seq<char>)
    requires
        s.len() > 0,
        !CharSet::Brackets.has(s[0]) && !CharSet::Brackets.has(s.last()),
        !CharSet::Trailers.has(s.last()),
    ensures
        time_parts(s) == split_at(s, ':'),
{
}

/// The chapters of a description come line by line: a line that begins with a time names the
/// chapter that starts then, with what follows the time and its separators as its title.
pub proof fn marks_come_line_by_line(
    a: Seq<Seq<char>>,
    b: Seq<Seq<char>>,
    time: Seq<char>,
    space: char,
    separators: Seq<char>,
    title: Seq<char>,
)
    requires
        time.len() > 0,
        forall|i: int| 0 <= i < time.len() ==> !is_whitespace(#[trigger] time[i]),
        is_whitespace(space),
        separators.len() > 0 ==> !is_whitespace(separators[0]),
        forall|i: int|
            0 <= i < separators.len() ==> CharSet::Separators.has(#[trigger] separators[i]),
        title.len() > 0,
        !is_whitespace(title[0]) && !CharSet::Separators.has(title[0]),
        !is_whitespace(title.last()),
    ensures
        marks_of_lines(a + b) == marks_of_lines(a) + marks_of_lines(b),
        ({
            let line = time + seq![space] + separators + title;
            match time_in(time) {
                Some(start) => marks_of_lines(seq![line]) == seq![
                    MarkView { start, title: escaped(title) },
                ] && marks_of_lines(seq![time]) == seq![
                    MarkView { start, title: escaped("Chapter"@) },
                ],
                None => marks_of_lines(seq![line]).len() == 0 && marks_of_lines(seq![time]).len()
                    == 0,
            }
        }),
    decreases b.len(),
{
    let line = time + seq![space] + separators + title;
    let none = Seq::<char>::empty();
    assert(seq![line].drop_last() =~= Seq::empty() && seq![time].drop_last() =~= Seq::empty());
    assert(marks_of_lines(Seq::empty()) =~= Seq::<MarkView>::empty());
    assert(!is_whitespace(time[0]) && !is_whitespace(time[time.len() - 1]));
    padding_is_taken_off(none, line, none, CharSet::Whitespace);
    padding_is_taken_off(none, time, none, CharSet::Whitespace);
    assert(none + line + none =~= line && none + time + none =~= time);
    assert(line[0] == time[0] && line.last() == title.last());
    let behind = separators + title;
    assert(line =~= time + seq![space] + behind);
    words_part_at_whitespace(time, space, behind);
    assert(words_of(line)[0] == time);
    assert(line.skip(time.len() as int) =~= seq![space] + behind);
    assert(behind[0] == if separators.len() > 0 {
        separators[0]
    } else {
        title[0]
    });
    lemma_skip_run(seq![space], behind, CharSet::Whitespace);
    lemma_skip_run(separators, title, CharSet::Separators);
    assert(time.skip(time.len() as int) =~= none);
    if b.len() == 0 {
        assert(a + b =~= a);
        assert(marks_of_lines(a) + marks_of_lines(b) =~= marks_of_lines(a));
    } else {
        marks_come_line_by_line(a, b.drop_last(), time, space, separators, title);
        assert((a + b).drop_last() =~= a + b.drop_last());
        assert((a + b).last() == b.last());
        assert(marks_of_lines(a + b) =~= marks_of_lines(a) + marks_of_lines(b));
    }
}

proof fn lemma_skip_run(a: Seq<char>, b: Seq<char>, set: CharSet)
    requires
        forall|i: int| 0 <= i < a.len() ==> set.has(#[trigger] a[i]),
        b.len() > 0 ==> !set.has(b[0]),
    ensures
        skip_leading(a + b, set) == b,
    decreases a.len(),
{
    if a.len() == 0 {
        assert(a + b =~= b);
    } else {
        assert((a + b)[0] == a[0]);
        assert((a + b).drop_first() =~= a.drop_first() + b);
        lemma_skip_run(a.drop_first(), b, set);
    }
}

proof fn lemma_filter_around<T>(marks: Seq<T>, i: int, mark: T, keep: spec_fn(T) -> bool)
    requires
        0 <= i <= marks.len(),
    ensures
        marks.insert(i, mark).filter(keep) == marks.take(i).filter(keep) + seq![mark].filter(keep)
            + marks.skip(i).filter(keep),
        marks.filter(keep) == marks.take(i).filter(keep) + marks.skip(i).filter(keep),
{
    assert(marks.insert(i, mark) =~= marks.take(i) + seq![mark] + marks.skip(i));
    assert(marks =~= marks.take(i) + marks.skip(i));
    Seq::filter_distributes_over_add(marks.take(i) + seq![mark], marks.skip(i), keep);
    Seq::filter_distributes_over_add(marks.take(i), seq![mark], keep);
    Seq::filter_distributes_over_add(marks.take(i), marks.skip(i), keep);
}

proof fn lemma_filter_nothing<T>(marks: Seq<T>, keep: spec_fn(T) -> bool)
    requires
        forall|i: int| 0 <= i < marks.len() ==> !keep(#[trigger] marks[i]),
    ensures
        marks.filter(keep) == Seq::<T>::empty(),
    decreases marks.len(),
{
    reveal(Seq::filter);
    if marks.len() > 0 {
        assert forall|i: int| 0 <= i < marks.drop_last().len() implies !keep(
            #[trigger] marks.drop_last()[i],
        ) by {
            assert(marks.drop_last()[i] == marks[i]);
        }
        lemma_filter_nothing(marks.drop_last(), keep);
    }
}

proof fn lemma_marks_stable(marks: Seq<MarkView>, start: nat)
    ensures
        marks_in_order(marks).filter(|mark: MarkView| mark.start == start) == marks.filter(
            |mark: MarkView| mark.start == start,
        ),
    decreases marks.len(),
{
    let keep = |mark: MarkView| mark.start == start;
    if marks.len() > 0 {
        let front = marks.drop_last();
        let last = marks.last();
        let one = seq![last];
        let sorted = marks_in_order(front);
        let at = mark_slot(sorted, last.start);
        lemma_marks_stable(front, start);
        lemma_marks_sorted(front);
        lemma_mark_slot(sorted, last.start);
        lemma_filter_around(sorted, at, last, keep);
        assert(marks =~= front + one);
        Seq::filter_distributes_over_add(front, one, keep);
        if last.start == start {
            assert forall|k: int| 0 <= k < sorted.skip(at).len() implies !keep(
                #[trigger] sorted.skip(at)[k],
            ) by {
                assert(sorted.skip(at)[k] == sorted[at + k]);
                if k > 0 {
                    assert(sorted[at].start <= sorted[at + k].start);
                }
            }
            lemma_filter_nothing(sorted.skip(at), keep);
            assert(marks_in_order(marks).filter(keep) =~= sorted.filter(keep) + one.filter(keep));
        } else {
            lemma_filter_nothing(one, keep);
            assert(marks_in_order(marks).filter(keep) =~= sorted.filter(keep));
            assert(marks.filter(keep) =~= front.filter(keep));
        }
    } else {
        assert(marks_in_order(marks) =~= marks);
    }
}

proof fn lemma_first_of_run(marks: Seq<MarkView>, start: nat)
    requires
        forall|i: int, j: int|
            0 <= i < j < marks.len() ==> (#[trigger] marks[i]).start <= (
            #[trigger] marks[j]).start,
    ensures
        without_repeats(marks).filter(|mark: MarkView| mark.start == start) == marks.filter(
            |mark: MarkView| mark.start == start,
        ).take(
            if marks.filter(|mark: MarkView| mark.start == start).len() == 0 {
                0
            } else {
                1
            },
        ),
        marks.len() > 0 ==> without_repeats(marks).len() > 0 && without_repeats(marks).last().start
            == marks.last().start,
    decreases marks.len(),
{
    let keep = |mark: MarkView| mark.start == start;
    reveal(Seq::filter);
    if marks.len() > 0 {
        let front = marks.drop_last();
        let last = marks.last();
        assert forall|i: int, j: int| 0 <= i < j < front.len() implies (
        #[trigger] front[i]).start <= (#[trigger] front[j]).start by {
            assert(front[i] == marks[i] && front[j] == marks[j]);
        }
        lemma_first_of_run(front, start);
        lemma_no_repeats(front);
        let before = without_repeats(front);
        let after = without_repeats(marks);
        assert(marks.filter(keep) == if keep(last) {
            front.filter(keep).push(last)
        } else {
            front.filter(keep)
        });
        if before.len() > 0 && before.last().start == last.start {
            assert(after == before);
            if keep(last) {
                lemma_filter_holds_last(before, keep);
                assert(before.filter(keep).len() > 0);
                assert(front.filter(keep).len() > 0);
                assert(marks.filter(keep).take(1) =~= front.filter(keep).take(1));
            }
        } else {
            assert(after.drop_last() =~= before && after.last() == last);
            if keep(last) {
                assert forall|i: int| 0 <= i < front.len() implies !keep(#[trigger] front[i]) by {
                    assert(front[i] == marks[i]);
                    assert(marks[i].start <= marks[marks.len() - 1].start);
                    if front.len() > 0 && i < front.len() - 1 {
                        assert(front[i].start <= front[front.len() - 1].start);
                    }
                    assert(front[front.len() - 1].start <= marks[marks.len() - 1].start);
                }
                lemma_filter_nothing(front, keep);
                assert(before.filter(keep) =~= Seq::empty());
                assert(after.filter(keep) =~= seq![last]);
                assert(marks.filter(keep).take(1) =~= seq![last]);
            } else {
                assert(after.filter(keep) =~= before.filter(keep));
            }
        }
    } else {
        assert(without_repeats(marks) =~= marks);
        assert(marks.filter(keep).take(0) =~= marks.filter(keep));
    }
}

proof fn lemma_filter_holds_last(marks: Seq<MarkView>, keep: spec_fn(MarkView) -> bool)
    requires
        marks.len() > 0,
        keep(marks.last()),
    ensures
        marks.filter(keep).len() > 0,
{
    reveal(Seq::filter);
}

/// Of the chapters that lines of a description name, the first one for each start is kept, and
/// no start is lost.
pub proof fn the_first_chapter_of_a_start_is_kept(description: Seq<char>, start: nat)
    ensures
        ({
            let named = marks_of_lines(lines_of(description)).filter(
                |mark: MarkView| mark.start == start,
            );
            let kept = description_marks(description).filter(
                |mark: MarkView| mark.start == start,
            );
            &&& named.len() == 0 ==> kept.len() == 0
            &&& named.len() > 0 ==> kept == seq![named[0]]
        }),
{
    let keep = |mark: MarkView| mark.start == start;
    let found = marks_of_lines(lines_of(description));
    let sorted = marks_in_order(found);
    lemma_marks_sorted(found);
    lemma_marks_stable(found, start);
    lemma_first_of_run(sorted, start);
    if found.filter(keep).len() > 0 {
        assert(found.filter(keep).take(1) =~= seq![found.filter(keep)[0]]);
    }
}

proof fn lemma_unit_size(n: nat)
    ensures
        double_unit(n) >= 1,
        n < 0x20_0000_0000_0000 * double_unit(n),
        n >= 0x20_0000_0000_0000 ==> 0x10_0000_0000_0000 * double_unit(n) <= n,
    decreases n,
{
    if n >= 0x20_0000_0000_0000 {
        lemma_unit_size(n / 2);
    }
}

/// A whole number below two to the power of fifty-three is a double itself. Any other is
/// rounded to the nearest of the multiples that are doubles, and from the middle between two
/// to the even one.
pub proof fn numbers_are_rounded_to_the_nearest_double(n: nat)
    ensures
        ({
            let unit = double_unit(n);
            let near = nearest_double(n);
            &&& n < 0x20_0000_0000_0000 ==> unit == 1 && near == n
            &&& n >= 0x20_0000_0000_0000 ==> 0x10_0000_0000_0000 * unit <= n < 0x20_0000_0000_0000
                * unit
            &&& near % unit == 0
            &&& 2 * near <= 2 * n + unit
            &&& 2 * n <= 2 * near + unit
            &&& 2 * near == 2 * n + unit || 2 * n == 2 * near + unit ==> (near / unit) % 2 == 0
        }),
{
    lemma_unit_size(n);
    let unit = double_unit(n) as int;
    let whole = n as int / unit;
    let rest = n as int % unit;
    lemma_fundamental_div_mod(n as int, unit);
    lemma_mod_bound(n as int, unit);
    assert(n == whole * unit + rest) by (nonlinear_arith)
        requires
            n == unit * whole + rest,
    ;
    assert((whole + 1) * unit == whole * unit + unit) by (nonlinear_arith);
    lemma_mod_multiples_basic(whole, unit);
    lemma_mod_multiples_basic(whole + 1, unit);
    lemma_div_multiples_vanish(whole, unit);
    lemma_div_multiples_vanish(whole + 1, unit);
    assert(whole * unit == unit * whole && (whole + 1) * unit == unit * (whole + 1))
        by (nonlinear_arith);
    if n < 0x20_0000_0000_0000 {
        assert(rest == 0);
    }
}

} // verus!
