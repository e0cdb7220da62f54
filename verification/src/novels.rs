//! Novel-list bookkeeping for the project scanner: which directory entries
//! count as chapter files, which directories count as novels, file-name
//! derivations, and ordering the novel list by name.

use vstd::prelude::*;

use crate::text::{
    lemma_rfind_char, rfind_char, spec_is_suffix, spec_rfind_char, str_eq, str_has_suffix,
};

verus! {

/// One novel directory, as the list scanner reports it.
pub struct NovelInfo {
    pub name: String,
    pub path: String,
    pub chapter_count: usize,
    pub total_word_count: usize,
    pub has_outline: bool,
}

/// A probed file-system entry.
pub struct FileInfo {
    path: String,
    exists: bool,
    is_directory: bool,
    size: Option<u64>,
}

/// A file name counts as a chapter when it has a `.md` or `.txt`
/// extension, is not the outline file, and is not hidden.
pub open spec fn spec_is_chapter_filename(s: Seq<char>) -> bool {
    (spec_is_suffix(".md"@, s) || spec_is_suffix(".txt"@, s)) && s != "outline.md"@ && (s.len()
        == 0 || s[0] != '.')
}

/// Decides whether a directory entry's name is a chapter file.
pub fn is_chapter_filename(name: &str) -> (r: bool)
    ensures
        r == spec_is_chapter_filename(name@),
{
    let ext_ok = str_has_suffix(name, ".md") || str_has_suffix(name, ".txt");
    if !ext_ok {
        return false;
    }
    if str_eq(name, "outline.md") {
        return false;
    }
    if name.unicode_len() > 0 && name.get_char(0) == '.' {
        return false;
    }
    true
}

/// A directory counts as a novel when it holds at least one chapter file
/// or an outline.
pub fn is_valid_novel(chapter_count: usize, has_outline: bool) -> (r: bool)
    ensures
        r == (chapter_count > 0 || has_outline),
{
    chapter_count > 0 || has_outline
}

/// The stem of a file name: everything before the last dot, except that a
/// lone leading dot marks a hidden name, not an extension.
pub open spec fn spec_file_stem(s: Seq<char>) -> Seq<char> {
    match spec_rfind_char(s, '.') {
        Some(k) => if k == 0 {
            s
        } else {
            s.take(k)
        },
        None => s,
    }
}

/// Extracts a file name's stem.
pub fn file_stem_of(name: &str) -> (r: String)
    ensures
        r@ == spec_file_stem(name@),
{
    match rfind_char(name, '.') {
        Some(k) => {
            proof {
                lemma_rfind_char(name@, '.');
            }
            if k == 0 {
                name.to_owned()
            } else {
                let stem = name.substring_char(0, k).to_owned();
                proof {
                    assert(name@.subrange(0, k as int) =~= name@.take(k as int));
                }
                stem
            }
        },
        None => name.to_owned(),
    }
}

/// The file name a chapter's summary is stored under: the chapter's stem
/// with a `.json` extension.
pub fn summary_json_filename(stem: &str) -> (r: String)
    ensures
        r@ == stem@ + ".json"@,
{
    let mut out = stem.to_owned();
    out.append(".json");
    out
}

/// The scaffold content of a freshly created novel's outline file: one
/// section per heading, with the novel's name under the title heading.
pub fn default_outline_content(name: &str) -> (r: String)
    ensures
        r@ == "# 标题\n"@ + name@ + "\n\n# 简介\n\n\n# 人物\n\n\n# 情节\n\n\n# 世界观\n\n"@,
{
    let mut out = String::from_str("# 标题\n");
    out.append(name);
    out.append("\n\n# 简介\n\n\n# 人物\n\n\n# 情节\n\n\n# 世界观\n\n");
    out
}

/// Lexicographic order on texts by character code point, the order Rust
/// compares strings in.
pub open spec fn spec_lex_le(a: Seq<char>, b: Seq<char>) -> bool
    decreases a.len(),
{
    if a.len() == 0 {
        true
    } else if b.len() == 0 {
        false
    } else if (a[0] as u32) < (b[0] as u32) {
        true
    } else if (a[0] as u32) > (b[0] as u32) {
        false
    } else {
        spec_lex_le(a.drop_first(), b.drop_first())
    }
}

/// Any two texts are ordered one way or the other.
pub proof fn lemma_lex_le_total(a: Seq<char>, b: Seq<char>)
    ensures
        spec_lex_le(a, b) || spec_lex_le(b, a),
    decreases a.len(),
{
    if a.len() > 0 && b.len() > 0 && (a[0] as u32) == (b[0] as u32) {
        lemma_lex_le_total(a.drop_first(), b.drop_first());
    }
}

/// Lexicographic order is transitive.
pub proof fn lemma_lex_le_trans(a: Seq<char>, b: Seq<char>, c: Seq<char>)
    requires
        spec_lex_le(a, b),
        spec_lex_le(b, c),
    ensures
        spec_lex_le(a, c),
    decreases a.len(),
{
    if a.len() > 0 && b.len() > 0 && c.len() > 0 && (a[0] as u32) == (b[0] as u32) && (b[0] as u32)
        == (c[0] as u32) {
        lemma_lex_le_trans(a.drop_first(), b.drop_first(), c.drop_first());
    }
}

/// Compares `a` and `b` from position `i` on, as the lexicographic order
/// sees their tails.
fn lex_le_from(a: &str, b: &str, i: usize) -> (r: bool)
    requires
        i <= a@.len(),
        i <= b@.len(),
    ensures
        r == spec_lex_le(a@.skip(i as int), b@.skip(i as int)),
    decreases a@.len() - i,
{
    let an = a.unicode_len();
    let bn = b.unicode_len();
    if i == an {
        return true;
    }
    if i == bn {
        assert(a@.skip(i as int).len() > 0);
        return false;
    }
    let ca = a.get_char(i) as u32;
    let cb = b.get_char(i) as u32;
    proof {
        assert(a@.skip(i as int)[0] == a@[i as int]);
        assert(b@.skip(i as int)[0] == b@[i as int]);
    }
    if ca < cb {
        true
    } else if ca > cb {
        false
    } else {
        let r = lex_le_from(a, b, i + 1);
        proof {
            assert(a@.skip(i as int).drop_first() =~= a@.skip(i as int + 1));
            assert(b@.skip(i as int).drop_first() =~= b@.skip(i as int + 1));
        }
        r
    }
}

/// Decides the lexicographic order on two texts.
pub fn str_lex_le(a: &str, b: &str) -> (r: bool)
    ensures
        r == spec_lex_le(a@, b@),
{
    let r = lex_le_from(a, b, 0);
    proof {
        assert(a@.skip(0) =~= a@);
        assert(b@.skip(0) =~= b@);
    }
    r
}

/// Sorts the novel list by name, keeping exactly the same entries.
pub fn sort_novels(novels: &mut Vec<NovelInfo>)
    ensures
        final(novels)@.len() == old(novels)@.len(),
        forall|a: int, b: int|
            0 <= a < b < final(novels)@.len() ==> spec_lex_le(
                #[trigger] final(novels)@[a].name@,
                #[trigger] final(novels)@[b].name@,
            ),
        final(novels)@.to_multiset() == old(novels)@.to_multiset(),
{
    let ghost orig = novels@;
    let mut out: Vec<NovelInfo> = Vec::new();
    proof {
        orig.to_multiset_ensures();
        out@.to_multiset_ensures();
        assert forall|a: NovelInfo| out@.to_multiset().count(a) == 0 by {
            if out@.to_multiset().count(a) > 0 {
                assert(out@.contains(a));
            }
        }
        assert(out@.to_multiset().add(novels@.to_multiset()) =~= novels@.to_multiset());
    }
    while novels.len() > 0
        invariant
            forall|a: int, b: int|
                0 <= a < b < out@.len() ==> spec_lex_le(
                    #[trigger] out@[a].name@,
                    #[trigger] out@[b].name@,
                ),
            out@.to_multiset().add(novels@.to_multiset()) =~= orig.to_multiset(),
            out@.len() + novels@.len() == orig.len(),
        decreases novels@.len(),
    {
        let ghost before = novels@;
        let e = match novels.pop() {
            Some(e) => e,
            None => {
                proof {
                    assert(false);
                }
                return ;
            },
        };
        proof {
            before.to_multiset_ensures();
            assert(before.drop_last().push(before.last()) =~= before);
            before.drop_last().to_multiset_ensures();
            assert(before.to_multiset() =~= novels@.to_multiset().insert(e));
        }
        let mut j: usize = out.len();
        let mut searching = true;
        while searching && j > 0
            invariant
                j <= out@.len(),
                forall|a: int, b: int|
                    0 <= a < b < out@.len() ==> spec_lex_le(
                        #[trigger] out@[a].name@,
                        #[trigger] out@[b].name@,
                    ),
                forall|t: int| j <= t < out@.len() ==> !spec_lex_le(#[trigger] out@[t].name@, e.name@),
                !searching ==> j > 0 && spec_lex_le(out@[j - 1].name@, e.name@),
            decreases j + (if searching { 1int } else { 0int }),
        {
            if str_lex_le(out[j - 1].name.as_str(), e.name.as_str()) {
                searching = false;
            } else {
                j = j - 1;
            }
        }
        let ghost out_before = out@;
        proof {
            crate::chapters::lemma_insert_to_multiset(out@, j as int, e);
        }
        out.insert(j, e);
        proof {
            assert forall|a: int, b: int|
                0 <= a < b < out@.len() implies spec_lex_le(
                #[trigger] out@[a].name@,
                #[trigger] out@[b].name@,
            ) by {
                if b < j {
                    assert(out@[a] == out_before[a] && out@[b] == out_before[b]);
                } else if a > j {
                    assert(out@[a] == out_before[a - 1] && out@[b] == out_before[b - 1]);
                } else if b == j as int {
                    assert(out@[a] == out_before[a]);
                    assert(spec_lex_le(out_before[j - 1].name@, e.name@));
                    if a < j - 1 {
                        assert(spec_lex_le(out_before[a].name@, out_before[j - 1].name@));
                        lemma_lex_le_trans(out_before[a].name@, out_before[j - 1].name@, e.name@);
                    }
                } else if a == j as int {
                    assert(out@[b] == out_before[b - 1]);
                    assert(!spec_lex_le(out_before[b - 1].name@, e.name@));
                    lemma_lex_le_total(e.name@, out_before[b - 1].name@);
                } else {
                    assert(out@[a] == out_before[a] && out@[b] == out_before[b - 1]);
                    assert(!spec_lex_le(out_before[b - 1].name@, e.name@));
                    lemma_lex_le_total(e.name@, out_before[b - 1].name@);
                    assert(spec_lex_le(out_before[j - 1].name@, e.name@));
                    if a < j - 1 {
                        assert(spec_lex_le(out_before[a].name@, out_before[j - 1].name@));
                        lemma_lex_le_trans(out_before[a].name@, out_before[j - 1].name@, e.name@);
                    }
                    lemma_lex_le_trans(out_before[a].name@, e.name@, out_before[b - 1].name@);
                }
            }
        }
    }
    proof {
        novels@.to_multiset_ensures();
        assert forall|a: NovelInfo| novels@.to_multiset().count(a) == 0 by {
            if novels@.to_multiset().count(a) > 0 {
                assert(novels@.contains(a));
            }
        }
        assert(out@.to_multiset().add(novels@.to_multiset()) =~= out@.to_multiset());
    }
    *novels = out;
}

} // verus!
