//! The outline document: a small markdown-like format with one section per
//! `# ` heading.  Known headings fill the outline's fields; the title,
//! summary and world-setting sections keep their lines joined, the plot
//! section keeps its lines as they stand, and each line of the characters
//! section holding a dash becomes a character, split and trimmed around
//! the first dash.  Text before the first heading, and sections under
//! unknown headings, are dropped.

use vstd::prelude::*;

use crate::text::{find_char, lemma_find_char, spec_find_char, str_eq};

verus! {

/// One character of the novel, as the outline lists it.
pub struct Character {
    pub name: String,
    pub description: String,
    pub role: String,
}

/// The parsed outline document.
pub struct NovelOutline {
    pub title: String,
    pub summary: String,
    pub characters: Vec<Character>,
    pub plot_points: Vec<String>,
    pub world_setting: Option<String>,
}

/// The mathematical shape of an outline: title, summary, characters as
/// name/description pairs, plot lines, and the optional world setting.
pub type OutlineModel = (Seq<char>, Seq<char>, Seq<(Seq<char>, Seq<char>)>, Seq<Seq<char>>, Option<
    Seq<char>,
>);

/// Whether a character counts as whitespace when lines are trimmed.
pub uninterp spec fn is_unicode_ws(c: char) -> bool;

/// Relies on `char::is_whitespace`: whether the character has the Unicode
/// whitespace property, a function of the character alone.
#[verifier::external_body]
fn char_is_ws(c: char) -> (r: bool)
    ensures
        r == is_unicode_ws(c),
{
    c.is_whitespace()
}

/// The newline-separated segments of a text: always one more segment than
/// there are newlines.
pub open spec fn spec_segments(s: Seq<char>) -> Seq<Seq<char>>
    decreases s.len(),
{
    if s.len() == 0 {
        seq![Seq::<char>::empty()]
    } else if s[0] == '\n' {
        seq![Seq::<char>::empty()] + spec_segments(s.drop_first())
    } else {
        let rest = spec_segments(s.drop_first());
        seq![seq![s[0]] + rest[0]] + rest.drop_first()
    }
}

/// A text always has at least one segment.
pub proof fn lemma_segments_nonempty(s: Seq<char>)
    ensures
        spec_segments(s).len() >= 1,
    decreases s.len(),
{
    if s.len() > 0 {
        lemma_segments_nonempty(s.drop_first());
    }
}

/// A line with its trailing carriage return dropped.
pub open spec fn spec_strip_cr(l: Seq<char>) -> Seq<char> {
    if l.len() > 0 && l.last() == '\r' {
        l.drop_last()
    } else {
        l
    }
}

/// Every line of a block stripped of its trailing carriage return.
pub open spec fn spec_strip_all(ls: Seq<Seq<char>>) -> Seq<Seq<char>> {
    ls.map_values(|l: Seq<char>| spec_strip_cr(l))
}

/// Stripping distributes over extending a block by one line.
pub proof fn lemma_strip_all_push(ls: Seq<Seq<char>>, l: Seq<char>)
    ensures
        spec_strip_all(ls.push(l)) =~~= spec_strip_all(ls).push(spec_strip_cr(l)),
{
}

/// The lines of a text: its segments, without a final empty segment, each
/// stripped of a trailing carriage return.
pub open spec fn spec_lines(s: Seq<char>) -> Seq<Seq<char>> {
    let segs = spec_segments(s);
    let kept = if segs.last().len() == 0 {
        segs.drop_last()
    } else {
        segs
    };
    spec_strip_all(kept)
}

/// A segment run still open at the scan position, put back in front of
/// the remaining text's segments.
pub open spec fn spec_prepend_seg(pre: Seq<char>, segs: Seq<Seq<char>>) -> Seq<Seq<char>> {
    seq![pre + segs[0]] + segs.drop_first()
}

/// Strips a trailing carriage return from a line.
fn strip_cr_str(line: &str) -> (r: String)
    ensures
        r@ == spec_strip_cr(line@),
{
    let n = line.unicode_len();
    if n > 0 && line.get_char(n - 1) == '\r' {
        let r = line.substring_char(0, n - 1).to_owned();
        proof {
            assert(line@.subrange(0, n as int - 1) =~= line@.drop_last());
        }
        r
    } else {
        line.to_owned()
    }
}

/// Splits a text into its lines.
pub fn split_lines(s: &str) -> (r: Vec<String>)
    ensures
        r.deep_view() == spec_lines(s@),
{
    let n = s.unicode_len();
    let mut out: Vec<String> = Vec::new();
    let ghost mut raw: Seq<Seq<char>> = Seq::empty();
    let mut start: usize = 0;
    let mut i: usize = 0;
    proof {
        assert(s@.skip(0) =~= s@);
        assert(s@.subrange(0, 0) =~= Seq::<char>::empty());
        lemma_segments_nonempty(s@);
        assert(spec_prepend_seg(Seq::empty(), spec_segments(s@)) =~= spec_segments(s@));
    }
    while i < n
        invariant
            start <= i <= n == s@.len(),
            spec_segments(s@) =~~= raw + spec_prepend_seg(
                s@.subrange(start as int, i as int),
                spec_segments(s@.skip(i as int)),
            ),
            out.deep_view() =~~= spec_strip_all(raw),
        decreases n - i,
    {
        let ghost pre = s@.subrange(start as int, i as int);
        let ghost rest = s@.skip(i as int);
        proof {
            assert(rest.len() > 0 && rest[0] == s@[i as int]);
            assert(rest.drop_first() =~= s@.skip(i as int + 1));
            lemma_segments_nonempty(s@.skip(i as int + 1));
        }
        if s.get_char(i) == '\n' {
            let line = strip_cr_str(s.substring_char(start, i));
            let ghost old_dv = out.deep_view();
            proof {
                assert(line@ == spec_strip_cr(pre));
            }
            out.push(line);
            proof {
                assert(out.deep_view() =~~= old_dv.push(spec_strip_cr(pre)));
                assert(spec_segments(rest) == seq![Seq::<char>::empty()] + spec_segments(
                    s@.skip(i as int + 1),
                ));
                assert(spec_prepend_seg(pre, spec_segments(rest)) =~~= seq![pre] + spec_segments(
                    s@.skip(i as int + 1),
                ));
                assert(s@.subrange(i as int + 1, i as int + 1) =~= Seq::<char>::empty());
                assert(spec_prepend_seg(
                    Seq::<char>::empty(),
                    spec_segments(s@.skip(i as int + 1)),
                ) =~~= spec_segments(s@.skip(i as int + 1)));
                let old_raw = raw;
                raw = raw.push(pre);
                lemma_strip_all_push(old_raw, pre);
                assert(raw + spec_prepend_seg(
                    s@.subrange(i as int + 1, i as int + 1),
                    spec_segments(s@.skip(i as int + 1)),
                ) =~~= old_raw + spec_prepend_seg(pre, spec_segments(rest)));
                assert(raw + spec_prepend_seg(
                    s@.subrange(i as int + 1, i as int + 1),
                    spec_segments(s@.skip(i as int + 1)),
                ) =~~= spec_segments(s@));
                assert(out.deep_view() =~~= spec_strip_all(raw));
            }
            start = i + 1;
        } else {
            proof {
                let nxt = spec_segments(s@.skip(i as int + 1));
                assert(spec_segments(rest) == seq![seq![rest[0]] + nxt[0]] + nxt.drop_first());
                assert(s@.subrange(start as int, i as int + 1) =~= pre + seq![s@[i as int]]);
                assert(pre + (seq![rest[0]] + nxt[0]) =~= (pre + seq![rest[0]]) + nxt[0]);
                assert(spec_prepend_seg(pre, spec_segments(rest)) =~~= spec_prepend_seg(
                    s@.subrange(start as int, i as int + 1),
                    nxt,
                ));
                assert(spec_segments(s@) =~~= raw + spec_prepend_seg(
                    s@.subrange(start as int, i as int + 1),
                    spec_segments(s@.skip(i as int + 1)),
                ));
            }
        }
        i = i + 1;
    }
    proof {
        assert(s@.skip(n as int) =~= Seq::<char>::empty());
        assert(spec_segments(s@.skip(n as int)) == seq![Seq::<char>::empty()]);
        assert(spec_prepend_seg(s@.subrange(start as int, n as int), seq![Seq::<char>::empty()])
            =~~= seq![s@.subrange(start as int, n as int)]);
        assert(spec_segments(s@) =~~= raw.push(s@.subrange(start as int, n as int)));
    }
    if start < n {
        let line = strip_cr_str(s.substring_char(start, n));
        let ghost old_dv = out.deep_view();
        let ghost last_seg = s@.subrange(start as int, n as int);
        proof {
            assert(line@ == spec_strip_cr(last_seg));
        }
        out.push(line);
        proof {
            assert(out.deep_view() =~~= old_dv.push(spec_strip_cr(last_seg)));
            lemma_strip_all_push(raw, last_seg);
            assert(spec_segments(s@).last().len() > 0);
            assert(spec_lines(s@) =~~= spec_strip_all(raw.push(last_seg)));
            assert(out.deep_view() =~~= spec_strip_all(raw.push(last_seg)));
        }
    } else {
        proof {
            assert(s@.subrange(start as int, n as int).len() == 0);
            assert(spec_segments(s@).last().len() == 0);
            assert(spec_segments(s@).drop_last() =~~= raw);
            assert(spec_lines(s@) =~~= spec_strip_all(raw));
        }
    }
    proof {
        assert(out.deep_view() =~~= spec_lines(s@));
    }
    out
}

/// The section a heading line opens: what follows `# `.
pub open spec fn spec_header(l: Seq<char>) -> Option<Seq<char>> {
    if l.len() >= 2 && l[0] == '#' && l[1] == ' ' {
        Some(l.skip(2))
    } else {
        None
    }
}

/// Lines joined back together with newlines.
pub open spec fn spec_join_lines(ls: Seq<Seq<char>>) -> Seq<char>
    decreases ls.len(),
{
    if ls.len() == 0 {
        Seq::empty()
    } else if ls.len() == 1 {
        ls[0]
    } else {
        spec_join_lines(ls.drop_last()) + seq!['\n'] + ls.last()
    }
}

/// A text with its leading whitespace dropped.
pub open spec fn spec_trim_start(s: Seq<char>) -> Seq<char>
    decreases s.len(),
{
    if s.len() > 0 && is_unicode_ws(s[0]) {
        spec_trim_start(s.drop_first())
    } else {
        s
    }
}

/// A text with its trailing whitespace dropped.
pub open spec fn spec_trim_end(s: Seq<char>) -> Seq<char>
    decreases s.len(),
{
    if s.len() > 0 && is_unicode_ws(s.last()) {
        spec_trim_end(s.drop_last())
    } else {
        s
    }
}

/// A text with whitespace dropped at both ends.
pub open spec fn spec_trim(s: Seq<char>) -> Seq<char> {
    spec_trim_end(spec_trim_start(s))
}

/// Dropping leading whitespace keeps the suffix from the first
/// non-whitespace character on.
proof fn lemma_trim_start_skip(s: Seq<char>, k: int)
    requires
        0 <= k <= s.len(),
        forall|j: int| 0 <= j < k ==> is_unicode_ws(#[trigger] s[j]),
        k < s.len() ==> !is_unicode_ws(s[k]),
    ensures
        spec_trim_start(s) == s.skip(k),
    decreases k,
{
    if k == 0 {
        assert(s.skip(0) =~= s);
    } else {
        let t = s.drop_first();
        assert(forall|j: int| 0 <= j < t.len() ==> t[j] == s[j + 1]);
        lemma_trim_start_skip(t, k - 1);
        assert(t.skip(k - 1) =~= s.skip(k));
    }
}

/// Dropping trailing whitespace keeps the prefix up to the last
/// non-whitespace character.
proof fn lemma_trim_end_take(s: Seq<char>, m: int)
    requires
        0 <= m <= s.len(),
        forall|j: int| m <= j < s.len() ==> is_unicode_ws(#[trigger] s[j]),
        m > 0 ==> !is_unicode_ws(s[m - 1]),
    ensures
        spec_trim_end(s) == s.take(m),
    decreases s.len() - m,
{
    if m == s.len() {
        assert(s.take(m) =~= s);
    } else {
        let t = s.drop_last();
        assert(forall|j: int| 0 <= j < t.len() ==> t[j] == s[j]);
        lemma_trim_end_take(t, m);
        assert(t.take(m) =~= s.take(m));
    }
}

/// Trims whitespace from both ends of a text.
pub fn trim_str(s: &str) -> (r: String)
    ensures
        r@ == spec_trim(s@),
{
    let n = s.unicode_len();
    let mut a: usize = 0;
    while a < n && char_is_ws(s.get_char(a))
        invariant
            a <= n == s@.len(),
            forall|j: int| 0 <= j < a ==> is_unicode_ws(#[trigger] s@[j]),
        decreases n - a,
    {
        a = a + 1;
    }
    proof {
        lemma_trim_start_skip(s@, a as int);
    }
    if a == n {
        proof {
            assert(s@.skip(n as int).len() == 0);
        }
        return String::new();
    }
    let mut b: usize = n;
    while b > a + 1 && char_is_ws(s.get_char(b - 1))
        invariant
            a < b <= n == s@.len(),
            forall|j: int| b <= j < n ==> is_unicode_ws(#[trigger] s@[j]),
        decreases b,
    {
        b = b - 1;
    }
    let b2 = if char_is_ws(s.get_char(b - 1)) {
        b - 1
    } else {
        b
    };
    proof {
        let tail = s@.skip(a as int);
        assert(forall|j: int| 0 <= j < tail.len() ==> tail[j] == s@[a + j]);
        lemma_trim_end_take(tail, b2 as int - a as int);
        assert(tail.take(b2 as int - a as int) =~= s@.subrange(a as int, b2 as int));
    }
    let r = s.substring_char(a, b2).to_owned();
    r
}

/// The characters listed in a block of lines: each line with a dash,
/// split at its first dash, both halves trimmed.
pub open spec fn spec_characters_of(ls: Seq<Seq<char>>) -> Seq<(Seq<char>, Seq<char>)>
    decreases ls.len(),
{
    if ls.len() == 0 {
        Seq::empty()
    } else {
        spec_characters_of(ls.drop_last()) + match spec_find_char(ls.last(), '-') {
            Some(p) => seq![
                (spec_trim(ls.last().take(p)), spec_trim(ls.last().skip(p + 1))),
            ],
            None => Seq::empty(),
        }
    }
}

/// Builds the character list of a block of lines.
fn characters_of(content: &Vec<String>) -> (r: Vec<Character>)
    ensures
        r@.map_values(|c: Character| (c.name@, c.description@)) == spec_characters_of(
            content.deep_view(),
        ),
        forall|i: int| 0 <= i < r@.len() ==> (#[trigger] r@[i]).role@ == "未定义"@,
{
    let mut r: Vec<Character> = Vec::new();
    let mut i: usize = 0;
    proof {
        assert(content.deep_view().take(0) =~= Seq::<Seq<char>>::empty());
        assert(r@.map_values(|c: Character| (c.name@, c.description@)) =~= spec_characters_of(
            content.deep_view().take(0),
        ));
    }
    while i < content.len()
        invariant
            i <= content@.len(),
            content.deep_view().len() == content@.len(),
            r@.map_values(|c: Character| (c.name@, c.description@)) =~= spec_characters_of(
                content.deep_view().take(i as int),
            ),
            forall|t: int| 0 <= t < r@.len() ==> (#[trigger] r@[t]).role@ == "未定义"@,
        decreases content@.len() - i,
    {
        let line = &content[i];
        let ghost lv = content.deep_view()[i as int];
        proof {
            assert(lv == line@);
            assert(content.deep_view().take(i as int + 1).drop_last() =~= content.deep_view().take(
                i as int,
            ));
            assert(content.deep_view().take(i as int + 1).last() == lv);
        }
        match find_char(line.as_str(), '-') {
            Some(p) => {
                proof {
                    lemma_find_char(line@, '-');
                }
                let n = line.as_str().unicode_len();
                let name = trim_str(line.as_str().substring_char(0, p));
                let description = trim_str(line.as_str().substring_char(p + 1, n));
                proof {
                    assert(line@.subrange(0, p as int) =~= line@.take(p as int));
                    assert(line@.subrange(p as int + 1, n as int) =~= line@.skip(p as int + 1));
                }
                r.push(Character { name, description, role: String::from_str("未定义") });
                proof {
                    assert(r@.map_values(|c: Character| (c.name@, c.description@))
                        =~= spec_characters_of(content.deep_view().take(i as int + 1)));
                }
            },
            None => {
                proof {
                    assert(r@.map_values(|c: Character| (c.name@, c.description@))
                        =~= spec_characters_of(content.deep_view().take(i as int + 1)));
                }
            },
        }
        i = i + 1;
    }
    proof {
        assert(content.deep_view().take(content@.len() as int) =~= content.deep_view());
    }
    r
}

/// Joins a block of lines back into one text.
fn join_lines(ls: &Vec<String>) -> (r: String)
    ensures
        r@ == spec_join_lines(ls.deep_view()),
{
    if ls.len() == 0 {
        return String::new();
    }
    let mut r = ls[0].clone();
    let mut i: usize = 1;
    proof {
        assert(ls.deep_view().take(1) =~= seq![ls.deep_view()[0]]);
    }
    while i < ls.len()
        invariant
            1 <= i <= ls@.len(),
            ls.deep_view().len() == ls@.len(),
            r@ == spec_join_lines(ls.deep_view().take(i as int)),
        decreases ls@.len() - i,
    {
        r.append("\n");
        r.append(ls[i].as_str());
        proof {
            reveal_strlit("\n");
            let t = ls.deep_view().take(i as int + 1);
            assert(t.drop_last() =~= ls.deep_view().take(i as int));
            assert(t.last() == ls.deep_view()[i as int]);
            assert(t.len() >= 2);
            assert(r@ =~= spec_join_lines(t));
        }
        i = i + 1;
    }
    proof {
        assert(ls.deep_view().take(ls@.len() as int) =~= ls.deep_view());
    }
    r
}

/// Makes an owned copy of a block of lines.
fn clone_lines(ls: &Vec<String>) -> (r: Vec<String>)
    ensures
        r@ == ls@,
{
    let mut r: Vec<String> = Vec::new();
    let mut i: usize = 0;
    while i < ls.len()
        invariant
            i <= ls@.len(),
            r@ == ls@.take(i as int),
        decreases ls@.len() - i,
    {
        r.push(ls[i].clone());
        proof {
            assert(r@ =~= ls@.take(i as int + 1));
        }
        i = i + 1;
    }
    proof {
        assert(ls@.take(ls@.len() as int) =~= ls@);
    }
    r
}

/// The model an outline value denotes.
pub open spec fn spec_view_outline(o: NovelOutline) -> OutlineModel {
    (
        o.title@,
        o.summary@,
        o.characters@.map_values(|c: Character| (c.name@, c.description@)),
        o.plot_points.deep_view(),
        match o.world_setting {
            Some(w) => Some(w@),
            None => None,
        },
    )
}

/// How a finished section settles into the outline: known headings fill
/// their field, the characters section appends, everything else is
/// dropped.
pub open spec fn spec_flush(sec: Seq<char>, content: Seq<Seq<char>>, m: OutlineModel) -> OutlineModel {
    if sec.len() == 0 {
        m
    } else if sec == "标题"@ {
        (spec_join_lines(content), m.1, m.2, m.3, m.4)
    } else if sec == "简介"@ {
        (m.0, spec_join_lines(content), m.2, m.3, m.4)
    } else if sec == "人物"@ {
        (m.0, m.1, m.2 + spec_characters_of(content), m.3, m.4)
    } else if sec == "情节"@ {
        (m.0, m.1, m.2, content, m.4)
    } else if sec == "世界观"@ {
        (m.0, m.1, m.2, m.3, Some(spec_join_lines(content)))
    } else {
        m
    }
}

/// The outline a sequence of lines folds to, carrying the open section
/// and its collected content.
pub open spec fn spec_outline_fold(
    lines: Seq<Seq<char>>,
    sec: Seq<char>,
    content: Seq<Seq<char>>,
    m: OutlineModel,
) -> OutlineModel
    decreases lines.len(),
{
    if lines.len() == 0 {
        spec_flush(sec, content, m)
    } else {
        match spec_header(lines[0]) {
            Some(h) => spec_outline_fold(
                lines.drop_first(),
                h,
                Seq::empty(),
                spec_flush(sec, content, m),
            ),
            None => spec_outline_fold(lines.drop_first(), sec, content.push(lines[0]), m),
        }
    }
}

/// The model of an empty outline.
pub open spec fn spec_empty_outline() -> OutlineModel {
    (Seq::<char>::empty(), Seq::<char>::empty(), Seq::<(Seq<char>, Seq<char>)>::empty(), Seq::<
        Seq<char>,
    >::empty(), None)
}

/// What parsing an outline document yields.
pub open spec fn spec_parse_outline(s: Seq<char>) -> OutlineModel {
    spec_outline_fold(spec_lines(s), Seq::empty(), Seq::empty(), spec_empty_outline())
}

/// Settles a finished section into the outline being built; every
/// character it adds carries the fixed placeholder role.
fn flush_section(sec: &str, content: &Vec<String>, out: &mut NovelOutline)
    ensures
        spec_view_outline(*final(out)) == spec_flush(
            sec@,
            content.deep_view(),
            spec_view_outline(*old(out)),
        ),
        (forall|i: int|
            0 <= i < old(out).characters@.len() ==> (#[trigger] old(out).characters@[i]).role@
                == "未定义"@) ==> (forall|i: int|
            0 <= i < final(out).characters@.len()
                ==> (#[trigger] final(out).characters@[i]).role@ == "未定义"@),
{
    if sec.unicode_len() == 0 {
        return ;
    }
    if str_eq(sec, "标题") {
        out.title = join_lines(content);
    } else if str_eq(sec, "简介") {
        out.summary = join_lines(content);
    } else if str_eq(sec, "人物") {
        let ghost before = out.characters@;
        let mut cs = characters_of(content);
        out.characters.append(&mut cs);
        proof {
            assert((before + cs@).map_values(|c: Character| (c.name@, c.description@))
                =~= before.map_values(|c: Character| (c.name@, c.description@)) + cs@.map_values(
                |c: Character| (c.name@, c.description@),
            ));
        }
    } else if str_eq(sec, "情节") {
        out.plot_points = clone_lines(content);
    } else if str_eq(sec, "世界观") {
        out.world_setting = Some(join_lines(content));
    }
}

/// Parses an outline document: feeds its lines through the section fold.
/// Every parsed character carries the fixed placeholder role.
pub fn parse_outline(content: &str) -> (r: NovelOutline)
    ensures
        spec_view_outline(r) == spec_parse_outline(content@),
        forall|i: int|
            0 <= i < r.characters@.len() ==> (#[trigger] r.characters@[i]).role@ == "未定义"@,
{
    let lines = split_lines(content);
    let mut out = NovelOutline {
        title: String::new(),
        summary: String::new(),
        characters: Vec::new(),
        plot_points: Vec::new(),
        world_setting: None,
    };
    let mut sec = String::new();
    let mut cont: Vec<String> = Vec::new();
    let mut i: usize = 0;
    proof {
        assert(spec_view_outline(out) =~~= spec_empty_outline());
        assert(lines.deep_view().skip(0) =~= lines.deep_view());
        assert(cont.deep_view() =~= Seq::<Seq<char>>::empty());
    }
    while i < lines.len()
        invariant
            i <= lines@.len(),
            lines.deep_view().len() == lines@.len(),
            spec_outline_fold(
                lines.deep_view().skip(i as int),
                sec@,
                cont.deep_view(),
                spec_view_outline(out),
            ) == spec_parse_outline(content@),
            forall|t: int|
                0 <= t < out.characters@.len() ==> (#[trigger] out.characters@[t]).role@
                    == "未定义"@,
        decreases lines@.len() - i,
    {
        let ghost rest = lines.deep_view().skip(i as int);
        let ghost lv = lines.deep_view()[i as int];
        proof {
            assert(rest.len() > 0 && rest[0] == lv);
            assert(rest.drop_first() =~= lines.deep_view().skip(i as int + 1));
        }
        let line = &lines[i];
        let n = line.as_str().unicode_len();
        let is_header = n >= 2 && line.as_str().get_char(0) == '#' && line.as_str().get_char(1)
            == ' ';
        if is_header {
            flush_section(sec.as_str(), &cont, &mut out);
            let h = line.as_str().substring_char(2, n).to_owned();
            proof {
                assert(lv == line@);
                assert(h@ =~= lv.skip(2));
                assert(spec_header(lv) == Some(h@));
            }
            sec = h;
            cont = Vec::new();
            proof {
                assert(cont.deep_view() =~= Seq::<Seq<char>>::empty());
            }
        } else {
            proof {
                assert(lv == line@);
                assert(spec_header(lv) is None);
            }
            let ghost cd = cont.deep_view();
            cont.push(line.clone());
            proof {
                assert(cont.deep_view() =~~= cd.push(lv));
            }
        }
        i = i + 1;
    }
    proof {
        assert(lines.deep_view().skip(lines@.len() as int) =~= Seq::<Seq<char>>::empty());
    }
    flush_section(sec.as_str(), &cont, &mut out);
    out
}

} // verus!
