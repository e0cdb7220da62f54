//! Chapter bookkeeping for the project scanner: parsing a chapter file's
//! stem into its number and title, choosing the next chapter number,
//! composing chapter filenames, and ordering chapter lists.
//!
//! Word counts here are character counts, a deliberately distinct notion
//! from the tokenizer service's token counts.

use vstd::prelude::*;

use crate::text::{lemma_find_char, spec_find_char};

verus! {

/// One chapter file, as the scanner reports it.
pub struct ChapterInfo {
    pub filename: String,
    pub title: String,
    pub chapter_number: u32,
    pub word_count: usize,
    pub path: String,
    pub has_summary: bool,
    pub modified_time: Option<String>,
}

/// A whole novel project, as the scanner reports it.
pub struct NovelProjectInfo {
    pub name: String,
    pub path: String,
    pub chapters: Vec<ChapterInfo>,
    pub has_outline: bool,
    pub has_inkflow_folder: bool,
    pub total_word_count: usize,
}

/// A generated chapter summary, as persisted next to the chapter.
pub struct ChapterSummary {
    pub chapter_path: String,
    pub summary: String,
    pub keywords: Vec<String>,
    pub generated_at: String,
}

/// A decimal digit.
pub open spec fn is_digit(c: char) -> bool {
    48 <= c as u32 <= 57
}

/// The value of a decimal digit.
pub open spec fn digit_val(c: char) -> int {
    c as u32 - 48
}

/// Every character of `s` is a decimal digit.
pub open spec fn spec_all_digits(s: Seq<char>) -> bool {
    forall|i: int| 0 <= i < s.len() ==> is_digit(#[trigger] s[i])
}

/// The number a digit string denotes.
pub open spec fn spec_digits_val(s: Seq<char>) -> int
    decreases s.len(),
{
    if s.len() == 0 {
        0
    } else {
        spec_digits_val(s.drop_last()) * 10 + digit_val(s.last())
    }
}

/// What parsing `s` as a `u32` yields: its value when `s` is a non-empty
/// digit string whose value fits, and nothing otherwise.
pub open spec fn spec_parse_u32(s: Seq<char>) -> Option<int> {
    if s.len() > 0 && spec_all_digits(s) && spec_digits_val(s) <= u32::MAX {
        Some(spec_digits_val(s))
    } else {
        None
    }
}

/// Parsing with a zero fallback, as the stem parser uses it.
pub open spec fn spec_parse_u32_or_zero(s: Seq<char>) -> int {
    match spec_parse_u32(s) {
        Some(v) => v,
        None => 0,
    }
}

/// The value of a digit string is never negative.
pub proof fn lemma_digits_val_nonneg(s: Seq<char>)
    requires
        spec_all_digits(s),
    ensures
        spec_digits_val(s) >= 0,
    decreases s.len(),
{
    if s.len() > 0 {
        assert(spec_all_digits(s.drop_last()));
        lemma_digits_val_nonneg(s.drop_last());
    }
}

/// Extending a digit string never shrinks its value.
pub proof fn lemma_digits_val_prefix_le(s: Seq<char>, i: int)
    requires
        spec_all_digits(s),
        0 <= i <= s.len(),
    ensures
        spec_digits_val(s.take(i)) <= spec_digits_val(s),
    decreases s.len() - i,
{
    if i < s.len() {
        let t = s.take(i + 1);
        assert(t.drop_last() =~= s.take(i));
        assert(spec_all_digits(s.take(i))) by {
            assert(forall|j: int| 0 <= j < i ==> s.take(i)[j] == s[j]);
        }
        lemma_digits_val_nonneg(s.take(i));
        assert(spec_digits_val(t) == spec_digits_val(s.take(i)) * 10 + digit_val(t.last()));
        assert(digit_val(t.last()) >= 0);
        assert(spec_digits_val(s.take(i)) * 10 >= spec_digits_val(s.take(i))) by (nonlinear_arith)
            requires
                spec_digits_val(s.take(i)) >= 0,
        ;
        lemma_digits_val_prefix_le(s, i + 1);
    } else {
        assert(s.take(i) =~= s);
    }
}

/// Decides `is_digit` in executable code.
pub fn char_is_digit(c: char) -> (r: bool)
    ensures
        r == is_digit(c),
{
    let u = c as u32;
    48 <= u && u <= 57
}

/// Parses `s` as a `u32`: its value exactly when `s` is a non-empty digit
/// string whose value fits in a `u32`.
pub fn parse_u32(s: &str) -> (r: Option<u32>)
    ensures
        match r {
            Some(v) => spec_parse_u32(s@) == Some(v as int),
            None => spec_parse_u32(s@) is None,
        },
{
    let n = s.unicode_len();
    if n == 0 {
        return None;
    }
    let mut acc: u64 = 0;
    let mut i: usize = 0;
    while i < n
        invariant
            i <= n == s@.len(),
            spec_all_digits(s@.take(i as int)),
            acc == spec_digits_val(s@.take(i as int)),
            acc <= u32::MAX,
        decreases n - i,
    {
        let c = s.get_char(i);
        if !char_is_digit(c) {
            assert(!spec_all_digits(s@));
            return None;
        }
        let u = c as u32;
        acc = acc * 10 + (u - 48) as u64;
        i = i + 1;
        proof {
            assert(s@.take(i as int).drop_last() =~= s@.take(i as int - 1));
            assert(s@.take(i as int).last() == c);
            assert(forall|j: int|
                0 <= j < i ==> s@.take(i as int)[j] == s@.take(i as int)[j] && is_digit(s@.take(
                    i as int,
                )[j]));
        }
        if acc > u32::MAX as u64 {
            proof {
                if spec_all_digits(s@) {
                    lemma_digits_val_prefix_le(s@, i as int);
                }
            }
            return None;
        }
    }
    proof {
        assert(s@.take(n as int) =~= s@);
    }
    Some(acc as u32)
}

/// Parsing with a zero fallback.
pub fn parse_u32_or_zero(s: &str) -> (r: u32)
    ensures
        r == spec_parse_u32_or_zero(s@),
{
    match parse_u32(s) {
        Some(v) => v,
        None => 0,
    }
}

/// The number of leading decimal digits of `s`.
pub open spec fn spec_digits_prefix_len(s: Seq<char>) -> int
    decreases s.len(),
{
    if s.len() == 0 || !is_digit(s[0]) {
        0
    } else {
        1 + spec_digits_prefix_len(s.drop_first())
    }
}

/// What `spec_digits_prefix_len` returns is the longest digit prefix.
pub proof fn lemma_digits_prefix_len(s: Seq<char>)
    ensures
        0 <= spec_digits_prefix_len(s) <= s.len(),
        forall|j: int| 0 <= j < spec_digits_prefix_len(s) ==> is_digit(#[trigger] s[j]),
        spec_digits_prefix_len(s) < s.len() ==> !is_digit(s[spec_digits_prefix_len(s)]),
    decreases s.len(),
{
    if s.len() > 0 && is_digit(s[0]) {
        let t = s.drop_first();
        lemma_digits_prefix_len(t);
        assert(forall|j: int| 0 <= j < t.len() ==> t[j] == s[j + 1]);
        let d = spec_digits_prefix_len(s);
        assert forall|j: int| 0 <= j < d implies is_digit(#[trigger] s[j]) by {
            if j > 0 {
                assert(is_digit(t[j - 1]));
            }
        }
    }
}

/// The chapter number and title a file stem denotes.  A stem with an
/// underscore splits there: the part before it parses as the number (zero
/// when it does not parse) and the part after it is the title.  Otherwise
/// the leading digits parse as the number, and the title is what follows
/// them, or the whole stem when no positive number leads it.  A digit here
/// is an ASCII decimal digit, deliberately: those are the only characters
/// `u32` parsing accepts, so a stem numbered in any other script counts as
/// unnumbered rather than half-parsed.
pub open spec fn spec_parse_stem(s: Seq<char>) -> (int, Seq<char>) {
    match spec_find_char(s, '_') {
        Some(p) => (spec_parse_u32_or_zero(s.take(p)), s.skip(p + 1)),
        None => {
            let d = spec_digits_prefix_len(s);
            let num = spec_parse_u32_or_zero(s.take(d));
            if num > 0 {
                (num, s.skip(d))
            } else {
                (num, s)
            }
        },
    }
}

/// Splits a chapter file stem into its chapter number and title.
pub fn parse_chapter_stem(stem: &str) -> (r: (u32, String))
    ensures
        r.0 as int == spec_parse_stem(stem@).0,
        r.1@ == spec_parse_stem(stem@).1,
{
    let n = stem.unicode_len();
    match crate::text::find_char(stem, '_') {
        Some(p) => {
            proof {
                lemma_find_char(stem@, '_');
            }
            let num = parse_u32_or_zero(stem.substring_char(0, p));
            let title = stem.substring_char(p + 1, n).to_owned();
            proof {
                assert(stem@.subrange(0, p as int) =~= stem@.take(p as int));
                assert(stem@.subrange(p as int + 1, n as int) =~= stem@.skip(p as int + 1));
            }
            (num, title)
        },
        None => {
            let mut d: usize = 0;
            while d < n && char_is_digit(stem.get_char(d))
                invariant
                    d <= n == stem@.len(),
                    forall|j: int| 0 <= j < d ==> is_digit(#[trigger] stem@[j]),
                decreases n - d,
            {
                d = d + 1;
            }
            proof {
                lemma_digits_prefix_len(stem@);
                let sd = spec_digits_prefix_len(stem@);
                if sd < d {
                    assert(is_digit(stem@[sd]));
                }
                if sd > d {
                    assert(is_digit(stem@[d as int]));
                }
                assert(sd == d as int);
            }
            let num = parse_u32_or_zero(stem.substring_char(0, d));
            proof {
                assert(stem@.subrange(0, d as int) =~= stem@.take(d as int));
            }
            if num > 0 {
                let title = stem.substring_char(d, n).to_owned();
                proof {
                    assert(stem@.subrange(d as int, n as int) =~= stem@.skip(d as int));
                }
                (num, title)
            } else {
                (num, stem.to_owned())
            }
        },
    }
}

/// The chapter number a stem carries for numbering purposes: the part
/// before its underscore, when that part parses strictly as a `u32`.
pub open spec fn spec_stem_number(s: Seq<char>) -> Option<int> {
    match spec_find_char(s, '_') {
        Some(p) => spec_parse_u32(s.take(p)),
        None => None,
    }
}

/// Extracts the chapter number used when scanning for the highest
/// existing chapter.
pub fn chapter_number_of_stem(stem: &str) -> (r: Option<u32>)
    ensures
        match r {
            Some(v) => spec_stem_number(stem@) == Some(v as int),
            None => spec_stem_number(stem@) is None,
        },
{
    match crate::text::find_char(stem, '_') {
        Some(p) => {
            proof {
                lemma_find_char(stem@, '_');
            }
            let r = parse_u32(stem.substring_char(0, p));
            proof {
                assert(stem@.subrange(0, p as int) =~= stem@.take(p as int));
            }
            r
        },
        None => None,
    }
}

/// The number the next chapter gets: one past the highest existing
/// number, and one when there is none.
pub fn next_chapter_number(numbers: &Vec<u32>) -> (r: u32)
    requires
        forall|i: int| 0 <= i < numbers@.len() ==> numbers@[i] < u32::MAX,
    ensures
        r >= 1,
        forall|i: int| 0 <= i < numbers@.len() ==> numbers@[i] < r,
        r == 1 || exists|i: int| 0 <= i < numbers@.len() && numbers@[i] == r - 1,
{
    let mut max: u32 = 0;
    let mut i: usize = 0;
    while i < numbers.len()
        invariant
            i <= numbers@.len(),
            forall|j: int| 0 <= j < numbers@.len() ==> numbers@[j] < u32::MAX,
            forall|j: int| 0 <= j < i ==> numbers@[j] <= max,
            max == 0 || exists|j: int| 0 <= j < i && numbers@[j] == max,
        decreases numbers@.len() - i,
    {
        if numbers[i] > max {
            max = numbers[i];
        }
        i = i + 1;
    }
    max + 1
}

/// The characters of a number written in decimal.
pub open spec fn spec_decimal(n: nat) -> Seq<char>
    decreases n,
{
    let d = (n % 10) as int;
    let c = ((d + 48) as u32) as char;
    if n < 10 {
        seq![c]
    } else {
        spec_decimal(n / 10) + seq![c]
    }
}

/// The decimal characters of a number, zero-padded to at least three
/// places, as chapter filenames begin.
pub open spec fn spec_padded3(n: nat) -> Seq<char> {
    if n < 10 {
        seq!['0', '0'] + spec_decimal(n)
    } else if n < 100 {
        seq!['0'] + spec_decimal(n)
    } else {
        spec_decimal(n)
    }
}

/// One decimal digit as text.
fn digit_str(d: u32) -> (r: &'static str)
    requires
        d < 10,
    ensures
        r@ =~= seq![(((d + 48) as u32) as char)],
{
    proof {
        reveal_strlit("0");
        reveal_strlit("1");
        reveal_strlit("2");
        reveal_strlit("3");
        reveal_strlit("4");
        reveal_strlit("5");
        reveal_strlit("6");
        reveal_strlit("7");
        reveal_strlit("8");
        reveal_strlit("9");
    }
    if d == 0 {
        "0"
    } else if d == 1 {
        "1"
    } else if d == 2 {
        "2"
    } else if d == 3 {
        "3"
    } else if d == 4 {
        "4"
    } else if d == 5 {
        "5"
    } else if d == 6 {
        "6"
    } else if d == 7 {
        "7"
    } else if d == 8 {
        "8"
    } else {
        "9"
    }
}

/// Appends the decimal form of `n` to `out`.
fn push_decimal(out: &mut String, n: u32)
    ensures
        final(out)@ == old(out)@ + spec_decimal(n as nat),
    decreases n,
{
    if n < 10 {
        out.append(digit_str(n));
    } else {
        push_decimal(out, n / 10);
        out.append(digit_str(n % 10));
        proof {
            assert(old(out)@ + spec_decimal((n / 10) as nat) + seq![
                ((((n % 10) + 48) as u32) as char),
            ] =~= old(out)@ + spec_decimal(n as nat));
        }
    }
}

/// Composes a chapter filename: the zero-padded chapter number, an
/// underscore, the title, and the `.md` extension.
pub fn format_chapter_filename(number: u32, title: &str) -> (r: String)
    ensures
        r@ == spec_padded3(number as nat) + seq!['_'] + title@ + seq!['.', 'm', 'd'],
{
    proof {
        reveal_strlit("0");
        reveal_strlit("_");
        reveal_strlit(".md");
    }
    let mut out = String::new();
    if number < 10 {
        out.append("0");
        out.append("0");
    } else if number < 100 {
        out.append("0");
    }
    push_decimal(&mut out, number);
    assert(out@ =~= spec_padded3(number as nat));
    out.append("_");
    out.append(title);
    out.append(".md");
    proof {
        assert(out@ =~= spec_padded3(number as nat) + seq!['_'] + title@ + seq!['.', 'm', 'd']);
    }
    out
}

/// The scaffold content of a freshly created chapter file: a heading with
/// the title and a blank line.
pub fn chapter_template(title: &str) -> (r: String)
    ensures
        r@ == "# "@ + title@ + "\n\n"@,
{
    let mut out = String::from_str("# ");
    out.append(title);
    out.append("\n\n");
    out
}

/// The sum of the chapters' word counts.
pub open spec fn spec_word_sum(s: Seq<ChapterInfo>) -> int
    decreases s.len(),
{
    if s.len() == 0 {
        0
    } else {
        spec_word_sum(s.drop_last()) + s.last().word_count
    }
}

/// Partial word sums never exceed the whole.
pub proof fn lemma_word_sum_prefix_le(s: Seq<ChapterInfo>, i: int)
    requires
        0 <= i <= s.len(),
    ensures
        spec_word_sum(s.take(i)) <= spec_word_sum(s),
    decreases s.len() - i,
{
    if i < s.len() {
        let t = s.take(i + 1);
        assert(t.drop_last() =~= s.take(i));
        assert(spec_word_sum(t) == spec_word_sum(s.take(i)) + t.last().word_count);
        lemma_word_sum_prefix_le(s, i + 1);
    } else {
        assert(s.take(i) =~= s);
    }
}

/// Sums the chapters' word counts, or nothing when the total does not fit
/// a `usize`.
pub fn total_word_count(chapters: &Vec<ChapterInfo>) -> (r: Option<usize>)
    ensures
        match r {
            Some(total) => total == spec_word_sum(chapters@),
            None => spec_word_sum(chapters@) > usize::MAX,
        },
{
    let mut acc: usize = 0;
    let mut i: usize = 0;
    while i < chapters.len()
        invariant
            i <= chapters@.len(),
            acc == spec_word_sum(chapters@.take(i as int)),
        decreases chapters@.len() - i,
    {
        let wc = chapters[i].word_count;
        proof {
            assert(chapters@.take(i as int + 1).drop_last() =~= chapters@.take(i as int));
            assert(chapters@.take(i as int + 1).last() == chapters@[i as int]);
        }
        if wc > usize::MAX - acc {
            proof {
                lemma_word_sum_prefix_le(chapters@, i as int + 1);
            }
            return None;
        }
        acc = acc + wc;
        i = i + 1;
    }
    proof {
        assert(chapters@.take(chapters@.len() as int) =~= chapters@);
    }
    Some(acc)
}

/// Inserting an element anywhere adds exactly it to a sequence's
/// multiset.
pub proof fn lemma_insert_to_multiset<A>(s: Seq<A>, i: int, x: A)
    requires
        0 <= i <= s.len(),
    ensures
        s.insert(i, x).to_multiset() =~= s.to_multiset().insert(x),
{
    broadcast use vstd::seq_lib::group_seq_lib_default;

    let l = s.take(i);
    let r = s.skip(i);
    assert(s.insert(i, x) =~= l.push(x) + r);
    assert(s =~= l + r);
    vstd::seq_lib::lemma_multiset_commutative(l.push(x), r);
    vstd::seq_lib::lemma_multiset_commutative(l, r);
    l.to_multiset_ensures();
    assert(l.push(x).to_multiset() =~= l.to_multiset().insert(x));
}

/// Sorts chapters by their chapter number, keeping exactly the same
/// chapters.
pub fn sort_chapters(chapters: &mut Vec<ChapterInfo>)
    ensures
        final(chapters)@.len() == old(chapters)@.len(),
        forall|a: int, b: int|
            0 <= a < b < final(chapters)@.len() ==> #[trigger] final(chapters)@[a].chapter_number
                <= #[trigger] final(chapters)@[b].chapter_number,
        final(chapters)@.to_multiset() == old(chapters)@.to_multiset(),
{
    let ghost orig = chapters@;
    let mut out: Vec<ChapterInfo> = Vec::new();
    proof {
        orig.to_multiset_ensures();
        out@.to_multiset_ensures();
    }
    while chapters.len() > 0
        invariant
            forall|a: int, b: int|
                0 <= a < b < out@.len() ==> out@[a].chapter_number <= out@[b].chapter_number,
            out@.to_multiset().add(chapters@.to_multiset()) =~= orig.to_multiset(),
            out@.len() + chapters@.len() == orig.len(),
        decreases chapters@.len(),
    {
        let ghost before = chapters@;
        let e = match chapters.pop() {
            Some(e) => e,
            None => {
                proof {
                    assert(false);
                }
                return ;
            },
        };
        proof {
            before.to_multiset_ensures();
            assert(before.drop_last().push(before.last()) =~= before);
            before.drop_last().to_multiset_ensures();
            assert(before.to_multiset() =~= chapters@.to_multiset().insert(e));
        }
        let mut j: usize = out.len();
        while j > 0 && out[j - 1].chapter_number > e.chapter_number
            invariant
                j <= out@.len(),
                forall|a: int, b: int|
                    0 <= a < b < out@.len() ==> out@[a].chapter_number <= out@[b].chapter_number,
                forall|t: int| j <= t < out@.len() ==> out@[t].chapter_number > e.chapter_number,
            decreases j,
        {
            j = j - 1;
        }
        let ghost out_before = out@;
        proof {
            lemma_insert_to_multiset(out@, j as int, e);
        }
        out.insert(j, e);
        proof {
            assert forall|a: int, b: int|
                0 <= a < b < out@.len() implies out@[a].chapter_number
                <= out@[b].chapter_number by {
                if b < j {
                    assert(out@[a] == out_before[a] && out@[b] == out_before[b]);
                } else if a > j {
                    assert(out@[a] == out_before[a - 1] && out@[b] == out_before[b - 1]);
                } else if b == j {
                    assert(out@[a] == out_before[a]);
                    assert(out_before[a].chapter_number <= e.chapter_number);
                } else if a == j {
                    assert(out@[b] == out_before[b - 1]);
                } else {
                    assert(out@[a] == out_before[a]);
                    assert(out@[b] == out_before[b - 1]);
                    if a < j && b > j {
                        if j < out_before.len() {
                            assert(out_before[a].chapter_number <= out_before[(b - 1) as int].chapter_number);
                        }
                    }
                }
            }
        }
    }
    proof {
        chapters@.to_multiset_ensures();
        assert forall|a: ChapterInfo| chapters@.to_multiset().count(a) == 0 by {
            if chapters@.to_multiset().count(a) > 0 {
                assert(chapters@.contains(a));
            }
        }
        assert(out@.to_multiset().add(chapters@.to_multiset()) =~= out@.to_multiset());
    }
    *chapters = out;
}

} // verus!
