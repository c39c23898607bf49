use lxcomm::markup::{find_pair, match_pair, to_markdown, try_to_markdown, MarkupCache};

#[test]
fn test_unordered() {
    let input = r#"
[list]
    [*]Bulleted list
    [*]Bulleted list
    [*]Bulleted list
[/list] 
    "#;

    println!("{}", to_markdown(input));
}

#[test]
fn test_ordered() {
    let input = r#"
[olist]
    [*]Ordered list
    [*]Ordered list
    [*]Ordered list
[/olist] 
    "#;

    println!("{}", to_markdown(input));
}

#[test]
fn lists_become_lines() {
    let unordered = "[list]\n[*]one\n[*]two\n[/list]";
    assert_eq!(to_markdown(unordered), "\n - one\n - two\n");
    let ordered = "\n[olist]\n    [*]a\n    plain\n    [*]b\n[/olist] \n";
    assert_eq!(to_markdown(ordered), "\n\n     1. a\n    plain\n     2. b\n \n");
}

#[test]
fn simple_tags_are_substituted() {
    assert_eq!(to_markdown("[b]bold[/b]"), "**bold**");
    assert_eq!(to_markdown("[u]under[/u]"), "__under__");
    assert_eq!(to_markdown("[i]slanted[/i]"), "*slanted*");
    assert_eq!(to_markdown("[strike]gone[/strike]"), "~~gone~~");
    assert_eq!(to_markdown("[spoiler]end[/spoiler]"), "||end||");
    assert_eq!(to_markdown("[hr][/hr]"), "\n---\n");
}

#[test]
fn blocks_are_converted() {
    assert_eq!(to_markdown("[noparse][b]x[/b][/noparse]"), "[b]x[/b]");
    assert_eq!(to_markdown("[code]x[/code]"), "```\nx\n```");
    assert_eq!(to_markdown("[code]\nx\n[/code]"), "```\nx\n```");
    assert_eq!(to_markdown("a[h2]T[/h2]b"), "a## Tb");
    assert_eq!(to_markdown("[quote]a\nb[/quote]"), "> a\n> b");
    assert_eq!(
        to_markdown("[quote=Ann]hi[/quote]"),
        "> *Originally posted by **Ann**\n> hi"
    );
    assert_eq!(
        to_markdown("see [url=https://example.org]here[/url]!"),
        "see [here](https://example.org)!"
    );
    assert_eq!(to_markdown("[url]bare[/url]"), "[url]bare[/url]");
}

#[test]
fn text_without_tags_stays() {
    assert_eq!(to_markdown("nothing to see, まじで"), "nothing to see, まじで");
}

#[test]
fn cut_off_tags_have_no_markdown() {
    assert_eq!(try_to_markdown("[noparse]x[/noparse"), None);
    assert_eq!(try_to_markdown("[noparse]x[/noparse]"), Some("x".to_string()));
}

#[test]
fn pairs_are_found() {
    let s: Vec<char> = "a[code]b[/code]".chars().collect();
    assert_eq!(find_pair(&s, "[code]", "[/code]"), Some((1, 8)));
    assert_eq!(find_pair(&s, "[hr]", "[/hr]"), None);
    let u: Vec<char> = "[url=x]y[/url]".chars().collect();
    assert_eq!(match_pair(&u, "[url", "]", "[/url]"), Some((0, 7, 8)));
}

#[test]
fn markup_is_cached_once() {
    let mut cache = MarkupCache::default();
    assert_eq!(cache.get_markup("[b]x[/b]"), None);
    assert!(cache.cache_markup("[b]x[/b]"));
    assert!(cache.cache_markup("[b]x[/b]"));
    assert_eq!(cache.get_markup("[b]x[/b]"), Some("**x**"));
    assert!(!cache.cache_markup("[noparse]x[/noparse"));
    assert_eq!(cache.get_markup("[noparse]x[/noparse"), None);
}

#[test]
fn raw_text_is_copied() {
    assert_eq!(
        to_markdown("[b]x[/b][noparse][i]y[noparse][/noparse][u]z[/u]"),
        "**x**[i]y[noparse]__z__"
    );
    assert_eq!(to_markdown("[noparse]a[/noparse]b[noparse]c[/noparse]"), "abc");
}

#[test]
fn links_and_headers_are_converted() {
    assert_eq!(to_markdown("é [url=]x[/url] b"), "é [x]() b");
    assert_eq!(to_markdown("[h0]none[/h0]"), " none");
    assert_eq!(to_markdown("a [h3]é[/h3] b"), "a ### é b");
}
