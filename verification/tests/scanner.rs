use inkflow::chapters::{
    chapter_number_of_stem, chapter_template, format_chapter_filename, next_chapter_number,
    parse_chapter_stem, parse_u32, parse_u32_or_zero, sort_chapters, total_word_count, ChapterInfo,
};
use inkflow::count_words;
use inkflow::novels::{
    default_outline_content, file_stem_of, is_chapter_filename, is_valid_novel, sort_novels,
    str_lex_le, summary_json_filename, NovelInfo,
};
use inkflow::outline::{parse_outline, split_lines, trim_str};
use inkflow::suggest::{mock_suggestions, pick_index};

fn chapter(number: u32, title: &str, words: usize) -> ChapterInfo {
    ChapterInfo {
        filename: format!("{:03}_{}.md", number, title),
        title: title.to_string(),
        chapter_number: number,
        word_count: words,
        path: String::new(),
        has_summary: false,
        modified_time: None,
    }
}

fn novel(name: &str) -> NovelInfo {
    NovelInfo {
        name: name.to_string(),
        path: String::new(),
        chapter_count: 1,
        total_word_count: 0,
        has_outline: false,
    }
}

#[test]
fn word_count_counts_characters() {
    assert_eq!(count_words(""), 0);
    assert_eq!(count_words("abc"), 3);
    assert_eq!(count_words("你好ab"), 4);
    assert_eq!(count_words("第一章\n正文"), 6);
}

#[test]
fn stem_with_underscore_splits_there() {
    assert_eq!(parse_chapter_stem("001_第一章"), (1, "第一章".to_string()));
    assert_eq!(parse_chapter_stem("007_"), (7, "".to_string()));
    assert_eq!(parse_chapter_stem("ab_cd"), (0, "cd".to_string()));
    assert_eq!(parse_chapter_stem("12_34_x"), (12, "34_x".to_string()));
}

#[test]
fn stem_without_underscore_uses_leading_digits() {
    assert_eq!(parse_chapter_stem("第一章"), (0, "第一章".to_string()));
    assert_eq!(parse_chapter_stem("12intro"), (12, "intro".to_string()));
    assert_eq!(parse_chapter_stem("0prologue"), (0, "0prologue".to_string()));
    assert_eq!(parse_chapter_stem(""), (0, "".to_string()));
}

#[test]
fn strict_stem_number_needs_digits_before_underscore() {
    assert_eq!(chapter_number_of_stem("003_x"), Some(3));
    assert_eq!(chapter_number_of_stem("0_x"), Some(0));
    assert_eq!(chapter_number_of_stem("a_b"), None);
    assert_eq!(chapter_number_of_stem("noundescore"), None);
    assert_eq!(chapter_number_of_stem("_x"), None);
    assert_eq!(chapter_number_of_stem("99999999999_x"), None);
}

#[test]
fn parse_u32_handles_overflow_and_junk() {
    assert_eq!(parse_u32("4294967295"), Some(u32::MAX));
    assert_eq!(parse_u32("4294967296"), None);
    assert_eq!(parse_u32(""), None);
    assert_eq!(parse_u32("12a"), None);
    assert_eq!(parse_u32_or_zero("0012"), 12);
    assert_eq!(parse_u32_or_zero("99999999999999999999"), 0);
    assert_eq!(parse_u32_or_zero("x"), 0);
}

#[test]
fn next_chapter_number_is_one_past_the_highest() {
    assert_eq!(next_chapter_number(&Vec::new()), 1);
    assert_eq!(next_chapter_number(&vec![3, 1, 2]), 4);
    assert_eq!(next_chapter_number(&vec![7]), 8);
}

#[test]
fn chapter_filename_is_zero_padded() {
    assert_eq!(format_chapter_filename(5, "第五章"), "005_第五章.md");
    assert_eq!(format_chapter_filename(42, "t"), "042_t.md");
    assert_eq!(format_chapter_filename(123, "t"), "123_t.md");
    assert_eq!(format_chapter_filename(4071, "big"), "4071_big.md");
}

#[test]
fn chapter_template_has_heading_and_blank_line() {
    assert_eq!(chapter_template("第一章"), "# 第一章\n\n");
}

#[test]
fn chapters_sort_by_number() {
    let mut v = vec![chapter(3, "c", 10), chapter(1, "a", 20), chapter(2, "b", 30)];
    sort_chapters(&mut v);
    let numbers: Vec<u32> = v.iter().map(|c| c.chapter_number).collect();
    assert_eq!(numbers, vec![1, 2, 3]);
    let titles: Vec<&str> = v.iter().map(|c| c.title.as_str()).collect();
    assert_eq!(titles, vec!["a", "b", "c"]);
}

#[test]
fn word_counts_sum_or_report_overflow() {
    let v = vec![chapter(1, "a", 100), chapter(2, "b", 250)];
    assert_eq!(total_word_count(&v), Some(350));
    let w = vec![chapter(1, "a", usize::MAX), chapter(2, "b", 1)];
    assert_eq!(total_word_count(&w), None);
    assert_eq!(total_word_count(&Vec::new()), Some(0));
}

#[test]
fn chapter_filenames_filter_extension_outline_and_hidden() {
    assert!(is_chapter_filename("001_a.md"));
    assert!(is_chapter_filename("notes.txt"));
    assert!(!is_chapter_filename("outline.md"));
    assert!(!is_chapter_filename(".hidden.md"));
    assert!(!is_chapter_filename("a.doc"));
    assert!(!is_chapter_filename("md"));
    assert!(!is_chapter_filename(""));
}

#[test]
fn file_stem_drops_only_a_real_extension() {
    assert_eq!(file_stem_of("001_a.md"), "001_a");
    assert_eq!(file_stem_of(".bashrc"), ".bashrc");
    assert_eq!(file_stem_of("a.b.c"), "a.b");
    assert_eq!(file_stem_of("abc"), "abc");
}

#[test]
fn summary_filename_appends_json() {
    assert_eq!(summary_json_filename("001_第一章"), "001_第一章.json");
}

#[test]
fn novels_sort_by_name() {
    let mut v = vec![novel("小说"), novel("b-novel"), novel("a-novel")];
    sort_novels(&mut v);
    let names: Vec<&str> = v.iter().map(|n| n.name.as_str()).collect();
    assert_eq!(names, vec!["a-novel", "b-novel", "小说"]);
    assert!(str_lex_le("a", "ab"));
    assert!(!str_lex_le("b", "ab"));
}

#[test]
fn a_novel_needs_a_chapter_or_an_outline() {
    assert!(is_valid_novel(1, false));
    assert!(is_valid_novel(0, true));
    assert!(!is_valid_novel(0, false));
}

#[test]
fn default_outline_lists_all_sections() {
    let c = default_outline_content("我的小说");
    assert_eq!(
        c,
        "# 标题\n我的小说\n\n# 简介\n\n\n# 人物\n\n\n# 情节\n\n\n# 世界观\n\n"
    );
}

#[test]
fn lines_split_like_the_scanner_reads_them() {
    assert_eq!(split_lines(""), Vec::<String>::new());
    assert_eq!(split_lines("a\nb"), vec!["a", "b"]);
    assert_eq!(split_lines("a\nb\n"), vec!["a", "b"]);
    assert_eq!(split_lines("a\r\nb\r\n"), vec!["a", "b"]);
    assert_eq!(split_lines("\n\n"), vec!["", ""]);
}

#[test]
fn trim_drops_whitespace_at_both_ends() {
    assert_eq!(trim_str("  a b  "), "a b");
    assert_eq!(trim_str("\t张三 "), "张三");
    assert_eq!(trim_str("   "), "");
    assert_eq!(trim_str(""), "");
    assert_eq!(trim_str("x"), "x");
}

#[test]
fn outline_parses_every_known_section() {
    let doc = "# 标题\n我的小说\n\n# 简介\n这是简介\n第二行\n\n# 人物\n张三 - 主角勇敢\n李四-聪明\n无破折号行\n\n# 情节\n第一幕\n第二幕\n\n# 世界观\n架空世界\n";
    let o = parse_outline(doc);
    assert_eq!(o.title, "我的小说\n");
    assert_eq!(o.summary, "这是简介\n第二行\n");
    assert_eq!(o.characters.len(), 2);
    assert_eq!(o.characters[0].name, "张三");
    assert_eq!(o.characters[0].description, "主角勇敢");
    assert_eq!(o.characters[0].role, "未定义");
    assert_eq!(o.characters[1].name, "李四");
    assert_eq!(o.characters[1].description, "聪明");
    let plots: Vec<&str> = o.plot_points.iter().map(|p| p.as_str()).collect();
    assert_eq!(plots, vec!["第一幕", "第二幕", ""]);
    assert_eq!(o.world_setting.as_deref(), Some("架空世界"));
}

#[test]
fn outline_drops_preamble_and_unknown_sections() {
    let doc = "前言被丢弃\n# 未知段落\n也被丢弃\n# 标题\n真标题";
    let o = parse_outline(doc);
    assert_eq!(o.title, "真标题");
    assert_eq!(o.summary, "");
    assert!(o.characters.is_empty());
    assert!(o.plot_points.is_empty());
    assert_eq!(o.world_setting, None);
}

#[test]
fn outline_later_section_overwrites_earlier() {
    let doc = "# 标题\n旧\n# 标题\n新";
    let o = parse_outline(doc);
    assert_eq!(o.title, "新");
}

#[test]
fn empty_outline_document_yields_empty_outline() {
    let o = parse_outline("");
    assert_eq!(o.title, "");
    assert_eq!(o.summary, "");
    assert!(o.characters.is_empty());
    assert!(o.plot_points.is_empty());
    assert_eq!(o.world_setting, None);
}

#[test]
fn suggestion_pool_and_pick() {
    let pool = mock_suggestions();
    assert_eq!(pool.len(), 6);
    assert!(pool.iter().all(|s| !s.is_empty()));
    assert_eq!(pick_index(7, 6), 1);
    assert_eq!(pick_index(6, 6), 0);
    for draw in 0..20usize {
        assert!(pick_index(draw, pool.len()) < pool.len());
    }
}
