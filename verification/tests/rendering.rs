use sitegen::format_inline;
use sitegen::render_markdown;

#[test]
fn unordered_list_round_trip_and_idempotence() {
    let body = "- a\n- b\n- c";
    let once = render_markdown(body);
    assert_eq!(once, "<ul>\n<li>a</li>\n<li>b</li>\n<li>c</li>\n</ul>\n");
    let twice = render_markdown(body);
    assert_eq!(once, twice);
}

#[test]
fn fenced_block_passes_code_through_untouched() {
    let body = "```\nsome <code>\n```";
    assert_eq!(render_markdown(body), "<pre>\nsome <code>\n</pre>\n");
}

#[test]
fn code_lines_are_not_inline_expanded() {
    let body = "```\n**not bold**\n```";
    assert_eq!(render_markdown(body), "<pre>\n**not bold**\n</pre>\n");
}

#[test]
fn unterminated_fence_is_auto_closed() {
    assert_eq!(render_markdown("```\ncode"), "<pre>\ncode\n</pre>\n");
}

#[test]
fn headings_use_longest_prefix_first() {
    let body = "# One\n## Two\n### Three";
    assert_eq!(
        render_markdown(body),
        "<h1>One</h1>\n<h2>Two</h2>\n<h3>Three</h3>\n"
    );
}

#[test]
fn blockquote_wraps_remainder() {
    assert_eq!(render_markdown("> quoted"), "<blockquote>quoted</blockquote>\n");
}

#[test]
fn ordered_list_items() {
    let body = "1. x\n2. y";
    assert_eq!(render_markdown(body), "<ol>\n<li>x</li>\n<li>y</li>\n</ol>\n");
}

#[test]
fn mixed_list_kinds_keep_the_first_tag() {
    let body = "- a\n1. b";
    assert_eq!(render_markdown(body), "<ul>\n<li>a</li>\n<li>b</li>\n</ul>\n");
}

#[test]
fn blank_line_closes_an_open_list() {
    let body = "- a\n\nafter";
    assert_eq!(render_markdown(body), "<ul>\n<li>a</li>\n</ul>\n<p>after</p>\n");
}

#[test]
fn unterminated_list_is_closed_at_the_end() {
    assert_eq!(render_markdown("- only"), "<ul>\n<li>only</li>\n</ul>\n");
}

#[test]
fn paragraph_text_is_inline_formatted() {
    assert_eq!(
        render_markdown("hi **there**"),
        "<p>hi <strong>there</strong></p>\n"
    );
}

#[test]
fn empty_body_renders_nothing() {
    assert_eq!(render_markdown(""), "");
}

#[test]
fn unterminated_second_span_is_auto_closed() {
    assert_eq!(
        format_inline("**bold** normal **again"),
        "<strong>bold</strong> normal <strong>again</strong>"
    );
}

#[test]
fn single_asterisks_pass_through() {
    assert_eq!(format_inline("a * b *c*"), "a * b *c*");
}

#[test]
fn lone_asterisk_inside_span_is_literal() {
    assert_eq!(format_inline("**a*b**"), "<strong>a*b</strong>");
}

#[test]
fn plain_text_is_unchanged() {
    assert_eq!(format_inline("plain <text>"), "plain <text>");
    assert_eq!(format_inline(""), "");
}

#[test]
fn bare_opener_yields_an_empty_span() {
    assert_eq!(format_inline("**"), "<strong></strong>");
}

#[test]
fn trailing_lone_asterisk_stays_in_the_span() {
    assert_eq!(format_inline("**ab*"), "<strong>ab*</strong>");
}

#[test]
fn empty_fenced_block() {
    assert_eq!(render_markdown("```\n```"), "<pre>\n</pre>\n");
}

#[test]
fn empty_number_before_dot_space_counts_as_ordered() {
    assert_eq!(render_markdown(". x"), "<ol>\n<li>x</li>\n</ol>\n");
}
