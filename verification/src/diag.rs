//! Diagnostics: error codes, their messages and explanations, and the
//! rustc-style rendering with a source excerpt and carets.
use crate::span::{SourceMap, Span};
use crate::text::{chars_to_string, dec, push_all, push_str, push_usize, str_chars};
use vstd::prelude::*;

verus! {

/// Whether a diagnostic fails the compile.
#[derive(Clone, Copy, Debug, PartialEq, Eq, Structural)]
pub enum Severity {
    Error,
    Warning,
}

/// Every diagnostic the compiler can emit; its number is shown as `Bnnnn`.
#[derive(Clone, Copy, Debug, PartialEq, Eq, Structural)]
pub enum Code {
    InvalidUtf8,
    TabCharacter,
    BomNotAtStart,
    UnexpectedChar,
    EmphasisSameMarker,
    EmphasisCrossLine,
    DoubledEmphasis,
    UnterminatedEmph,
    UnterminatedCode,
    HeadingTooDeep,
    HeadingNoSpace,
    BadIndent,
    BadHorizontalRule,
    UnterminatedFence,
    UnterminatedBlock,
    InlineBlockComment,
    BadListMarker,
    EmptyDocument,
    BadBlockquote,
    StrayEnd,
    StrayContent,
    UnterminatedFrontmatter,
    FrontmatterToml,
    UnknownCodeAttribute,
    ConflictingCodeAttributes,
    BadHeadingAnchor,
    NestingTooDeep,
    MinifyFailed,
    CodeBlockLineCount,
    LineCommentConverted,
    RefusedLanguage,
    UnknownShortcode,
    ArgTypeMismatch,
    MissingArg,
    BadEnumValue,
    FormMismatch,
    BadArgSyntax,
    DuplicateKwarg,
    DeprecatedCalloutKind,
    UnknownArg,
    OrderedListSequence,
    TableColumnMismatch,
    HeadingMonotonic,
    AlignArrayLength,
    BadDefinitionList,
    DuplicateHeadingAnchor,
    RefMissingFile,
    RefMissingAnchor,
    RefBadTarget,
    RefNoProject,
}

impl Code {
    pub open spec fn spec_number(self) -> nat {
        match self {
            Code::InvalidUtf8 => 101,
            Code::TabCharacter => 102,
            Code::BomNotAtStart => 103,
            Code::UnexpectedChar => 104,
            Code::EmphasisSameMarker => 204,
            Code::EmphasisCrossLine => 205,
            Code::DoubledEmphasis => 206,
            Code::UnterminatedEmph => 207,
            Code::UnterminatedCode => 208,
            Code::HeadingTooDeep => 301,
            Code::HeadingNoSpace => 302,
            Code::BadIndent => 303,
            Code::BadHorizontalRule => 304,
            Code::UnterminatedFence => 305,
            Code::UnterminatedBlock => 306,
            Code::InlineBlockComment => 307,
            Code::BadListMarker => 308,
            Code::EmptyDocument => 309,
            Code::BadBlockquote => 310,
            Code::StrayEnd => 311,
            Code::StrayContent => 312,
            Code::UnterminatedFrontmatter => 313,
            Code::FrontmatterToml => 314,
            Code::UnknownCodeAttribute => 315,
            Code::ConflictingCodeAttributes => 316,
            Code::BadHeadingAnchor => 317,
            Code::NestingTooDeep => 318,
            Code::MinifyFailed => 701,
            Code::CodeBlockLineCount => 702,
            Code::LineCommentConverted => 703,
            Code::RefusedLanguage => 704,
            Code::UnknownShortcode => 401,
            Code::ArgTypeMismatch => 402,
            Code::MissingArg => 403,
            Code::BadEnumValue => 404,
            Code::FormMismatch => 405,
            Code::BadArgSyntax => 406,
            Code::DuplicateKwarg => 407,
            Code::DeprecatedCalloutKind => 408,
            Code::UnknownArg => 409,
            Code::OrderedListSequence => 501,
            Code::TableColumnMismatch => 502,
            Code::HeadingMonotonic => 503,
            Code::AlignArrayLength => 504,
            Code::BadDefinitionList => 505,
            Code::DuplicateHeadingAnchor => 506,
            Code::RefMissingFile => 601,
            Code::RefMissingAnchor => 602,
            Code::RefBadTarget => 603,
            Code::RefNoProject => 604,
        }
    }

    pub fn number(self) -> (n: u32)
        ensures
            n == self.spec_number(),
    {
        match self {
            Code::InvalidUtf8 => 101,
            Code::TabCharacter => 102,
            Code::BomNotAtStart => 103,
            Code::UnexpectedChar => 104,
            Code::EmphasisSameMarker => 204,
            Code::EmphasisCrossLine => 205,
            Code::DoubledEmphasis => 206,
            Code::UnterminatedEmph => 207,
            Code::UnterminatedCode => 208,
            Code::HeadingTooDeep => 301,
            Code::HeadingNoSpace => 302,
            Code::BadIndent => 303,
            Code::BadHorizontalRule => 304,
            Code::UnterminatedFence => 305,
            Code::UnterminatedBlock => 306,
            Code::InlineBlockComment => 307,
            Code::BadListMarker => 308,
            Code::EmptyDocument => 309,
            Code::BadBlockquote => 310,
            Code::StrayEnd => 311,
            Code::StrayContent => 312,
            Code::UnterminatedFrontmatter => 313,
            Code::FrontmatterToml => 314,
            Code::UnknownCodeAttribute => 315,
            Code::ConflictingCodeAttributes => 316,
            Code::BadHeadingAnchor => 317,
            Code::NestingTooDeep => 318,
            Code::MinifyFailed => 701,
            Code::CodeBlockLineCount => 702,
            Code::LineCommentConverted => 703,
            Code::RefusedLanguage => 704,
            Code::UnknownShortcode => 401,
            Code::ArgTypeMismatch => 402,
            Code::MissingArg => 403,
            Code::BadEnumValue => 404,
            Code::FormMismatch => 405,
            Code::BadArgSyntax => 406,
            Code::DuplicateKwarg => 407,
            Code::DeprecatedCalloutKind => 408,
            Code::UnknownArg => 409,
            Code::OrderedListSequence => 501,
            Code::TableColumnMismatch => 502,
            Code::HeadingMonotonic => 503,
            Code::AlignArrayLength => 504,
            Code::BadDefinitionList => 505,
            Code::DuplicateHeadingAnchor => 506,
            Code::RefMissingFile => 601,
            Code::RefMissingAnchor => 602,
            Code::RefBadTarget => 603,
            Code::RefNoProject => 604,
        }
    }

    /// The one-line description of each code.
    pub open spec fn message_spec(self) -> Seq<char> {
        match self {
            Code::InvalidUtf8 => "invalid UTF-8 in source"@,
            Code::TabCharacter => "tab character is not allowed; use two spaces"@,
            Code::BomNotAtStart => "byte-order mark must only appear at start of file"@,
            Code::UnexpectedChar => "unexpected character"@,
            Code::EmphasisSameMarker => "emphasis cannot nest with the same marker"@,
            Code::EmphasisCrossLine => "emphasis must open and close on the same line"@,
            Code::DoubledEmphasis => "doubled emphasis markers are not valid; use a single marker"@,
            Code::UnterminatedEmph => "unterminated emphasis"@,
            Code::UnterminatedCode => "unterminated inline code span"@,
            Code::HeadingTooDeep => "heading level exceeds maximum of 6"@,
            Code::HeadingNoSpace => "heading marker must be followed by exactly one space"@,
            Code::BadIndent => "indentation must be in multiples of two spaces"@,
            Code::BadHorizontalRule => "horizontal rule must be exactly three dashes"@,
            Code::UnterminatedFence => "unterminated code fence"@,
            Code::UnterminatedBlock => "unterminated block shortcode"@,
            Code::InlineBlockComment => "block comments must start at the beginning of a line"@,
            Code::BadListMarker => "invalid list marker"@,
            Code::EmptyDocument => "document is empty"@,
            Code::BadBlockquote => "blockquote marker must be followed by a space"@,
            Code::StrayEnd => "`@end` without a matching block shortcode"@,
            Code::StrayContent => "unexpected content after directive"@,
            Code::UnterminatedFrontmatter => "frontmatter `+++` block is never closed"@,
            Code::FrontmatterToml => "frontmatter is not valid TOML"@,
            Code::UnknownCodeAttribute => "unknown code-fence attribute"@,
            Code::ConflictingCodeAttributes => "conflicting code-fence attributes"@,
            Code::BadHeadingAnchor => "invalid heading anchor"@,
            Code::NestingTooDeep => "blocks are nested too deeply"@,
            Code::MinifyFailed => "code block did not parse in its tagged language; emitted verbatim"@,
            Code::CodeBlockLineCount => "minified code block was originally many lines; LLM consumers cannot reference specific lines"@,
            Code::LineCommentConverted => "line comment converted to block-comment form for minification"@,
            Code::RefusedLanguage => "language uses significant whitespace and cannot be safely minified"@,
            Code::UnknownShortcode => "shortcode is not registered"@,
            Code::ArgTypeMismatch => "shortcode argument has wrong type"@,
            Code::MissingArg => "missing required shortcode argument"@,
            Code::BadEnumValue => "argument value is not in the allowed set"@,
            Code::FormMismatch => "shortcode used in the wrong form (block vs. inline)"@,
            Code::BadArgSyntax => "malformed shortcode argument syntax"@,
            Code::DuplicateKwarg => "keyword argument given more than once"@,
            Code::DeprecatedCalloutKind => "callout kind is deprecated; use the GFM equivalent"@,
            Code::UnknownArg => "shortcode does not declare this argument"@,
            Code::OrderedListSequence => "ordered list numbering must be sequential starting from 1"@,
            Code::TableColumnMismatch => "table row column count does not match header"@,
            Code::HeadingMonotonic => "heading levels must increase by at most one"@,
            Code::AlignArrayLength => "alignment array length must equal the column count"@,
            Code::BadDefinitionList => "malformed definition list"@,
            Code::DuplicateHeadingAnchor => "heading anchor must be unique within a document"@,
            Code::RefMissingFile => "cross-document reference target file does not exist in project"@,
            Code::RefMissingAnchor => "cross-document reference target anchor does not exist in target file"@,
            Code::RefBadTarget => "malformed cross-document reference target"@,
            Code::RefNoProject => "`@ref` requires a `brief.toml`-rooted project; none found"@,
        }
    }

    pub fn message(self) -> (r: &'static str)
        ensures
            r@ == self.message_spec(),
    {
        match self {
            Code::InvalidUtf8 => "invalid UTF-8 in source",
            Code::TabCharacter => "tab character is not allowed; use two spaces",
            Code::BomNotAtStart => "byte-order mark must only appear at start of file",
            Code::UnexpectedChar => "unexpected character",
            Code::EmphasisSameMarker => "emphasis cannot nest with the same marker",
            Code::EmphasisCrossLine => "emphasis must open and close on the same line",
            Code::DoubledEmphasis => "doubled emphasis markers are not valid; use a single marker",
            Code::UnterminatedEmph => "unterminated emphasis",
            Code::UnterminatedCode => "unterminated inline code span",
            Code::HeadingTooDeep => "heading level exceeds maximum of 6",
            Code::HeadingNoSpace => "heading marker must be followed by exactly one space",
            Code::BadIndent => "indentation must be in multiples of two spaces",
            Code::BadHorizontalRule => "horizontal rule must be exactly three dashes",
            Code::UnterminatedFence => "unterminated code fence",
            Code::UnterminatedBlock => "unterminated block shortcode",
            Code::InlineBlockComment => "block comments must start at the beginning of a line",
            Code::BadListMarker => "invalid list marker",
            Code::EmptyDocument => "document is empty",
            Code::BadBlockquote => "blockquote marker must be followed by a space",
            Code::StrayEnd => "`@end` without a matching block shortcode",
            Code::StrayContent => "unexpected content after directive",
            Code::UnterminatedFrontmatter => "frontmatter `+++` block is never closed",
            Code::FrontmatterToml => "frontmatter is not valid TOML",
            Code::UnknownCodeAttribute => "unknown code-fence attribute",
            Code::ConflictingCodeAttributes => "conflicting code-fence attributes",
            Code::BadHeadingAnchor => "invalid heading anchor",
            Code::NestingTooDeep => "blocks are nested too deeply",
            Code::MinifyFailed => "code block did not parse in its tagged language; emitted verbatim",
            Code::CodeBlockLineCount => "minified code block was originally many lines; LLM consumers cannot reference specific lines",
            Code::LineCommentConverted => "line comment converted to block-comment form for minification",
            Code::RefusedLanguage => "language uses significant whitespace and cannot be safely minified",
            Code::UnknownShortcode => "shortcode is not registered",
            Code::ArgTypeMismatch => "shortcode argument has wrong type",
            Code::MissingArg => "missing required shortcode argument",
            Code::BadEnumValue => "argument value is not in the allowed set",
            Code::FormMismatch => "shortcode used in the wrong form (block vs. inline)",
            Code::BadArgSyntax => "malformed shortcode argument syntax",
            Code::DuplicateKwarg => "keyword argument given more than once",
            Code::DeprecatedCalloutKind => "callout kind is deprecated; use the GFM equivalent",
            Code::UnknownArg => "shortcode does not declare this argument",
            Code::OrderedListSequence => "ordered list numbering must be sequential starting from 1",
            Code::TableColumnMismatch => "table row column count does not match header",
            Code::HeadingMonotonic => "heading levels must increase by at most one",
            Code::AlignArrayLength => "alignment array length must equal the column count",
            Code::BadDefinitionList => "malformed definition list",
            Code::DuplicateHeadingAnchor => "heading anchor must be unique within a document",
            Code::RefMissingFile => "cross-document reference target file does not exist in project",
            Code::RefMissingAnchor => "cross-document reference target anchor does not exist in target file",
            Code::RefBadTarget => "malformed cross-document reference target",
            Code::RefNoProject => "`@ref` requires a `brief.toml`-rooted project; none found",
        }
    }

    /// The longer explanation of each code, with how to fix it.
    pub open spec fn explain_spec(self) -> Seq<char> {
        match self {
            Code::InvalidUtf8 => "Brief sources must be valid UTF-8. Re-encode the file (e.g. `iconv -t UTF-8`) or find and fix the corrupt bytes at the reported offset."@,
            Code::TabCharacter => "Tabs are forbidden in Brief sources. Configure your editor to insert two spaces."@,
            Code::BomNotAtStart => "A UTF-8 byte-order mark is tolerated only as the very first bytes of the file. A BOM anywhere else is usually the result of concatenating files; delete it."@,
            Code::UnexpectedChar => "The lexer found a character that cannot begin or continue any Brief construct at this position. Usually a control character or stray escape; delete or replace it."@,
            Code::EmphasisSameMarker => "`*outer *inner* outer*` is ambiguous. Use a different marker for the inner span: `*outer _inner_ outer*`."@,
            Code::EmphasisCrossLine => "Emphasis spans must open and close on the same source line. Close the span before the line break, or join the lines into one."@,
            Code::DoubledEmphasis => "`**bold**`-style doubled markers are Markdown, not Brief. Brief uses single markers: `*bold*`, `_italic_`, `+underline+`, `~strike~`."@,
            Code::UnterminatedEmph => "An emphasis marker opened a span that never closes on the same line. Close it, or escape the marker (`\\*`) if it's literal text."@,
            Code::UnterminatedCode => "A backtick opened an inline code span that never closes on the same line. Close it, or use a double-backtick span (``` ``code with ` inside`` ```) when the code contains a backtick."@,
            Code::HeadingTooDeep => "Brief supports six heading levels. `#######` and deeper are errors. Restructure the document or split it."@,
            Code::HeadingNoSpace => "A heading marker is the `#`s followed by exactly one space: `# Title`. No space (or several) is an error so `#hashtag`-style text is never silently promoted to a heading."@,
            Code::BadIndent => "Brief indentation is strict: two spaces per nesting level. An odd number of leading spaces (or a level skipped) cannot be interpreted unambiguously; re-indent to multiples of two."@,
            Code::BadHorizontalRule => "A horizontal rule is exactly three dashes on their own line: `---`. Two dashes is too few; four or more is too many. This is strict so a typoed rule never silently becomes paragraph text."@,
            Code::UnterminatedFence => "A ``` code fence was opened but never closed before end of file. Add the closing ``` line. To show fence syntax inside a code block, use the `@code ... @end` shortcode instead of nesting fences."@,
            Code::UnterminatedBlock => "A block shortcode (`@details`, `@dl`, `@code`, a custom block) was never closed. Add `@end` at the same indentation as the opening line."@,
            Code::InlineBlockComment => "`/* ... */` comments are block-level in Brief: they must start at the beginning of a line. For a comment after content on the same line there is no inline form — move it to its own line."@,
            Code::BadListMarker => "Unordered list items are `- ` (dash, one space); ordered items are `1. ` (number, dot, one space). Markdown's `*` and `+` markers are not list markers in Brief."@,
            Code::EmptyDocument => "The source contains no blocks — only whitespace or comments. Brief treats a document with nothing to render as an error rather than emitting an empty output file."@,
            Code::BadBlockquote => "Blockquote markers are `>` (or `>>`, `>>>` for nesting) followed by exactly one space. `>text` without the space is rejected so accidental `>` characters are caught."@,
            Code::StrayEnd => "`@end` closes a block shortcode, but no block shortcode is open here. Remove it, or check the indentation of the opening line — `@end` must sit at the same indent."@,
            Code::StrayContent => "Content appears where the current construct does not allow it — most commonly a `|` row outside a `@t` table. Wrap table rows in `@t ... `(rows end at the first non-`|` line)."@,
            Code::UnterminatedFrontmatter => "A frontmatter block opened with `+++` was never closed. Add a closing `+++` line, or remove the opening if the document has no metadata."@,
            Code::FrontmatterToml => "Frontmatter content must be valid TOML. Brief deliberately uses TOML (not YAML) to match `brief.toml`. Fix the TOML syntax in the `+++ ... +++` block."@,
            Code::UnknownCodeAttribute => "Code-fence attributes are `@`-prefixed identifiers after the language tag (e.g. ```json @nominify). v0.4 recognizes `@nominify`, `@minify`, and `@minify-keep-comments`. Anything else is a compile error so typos are caught early."@,
            Code::ConflictingCodeAttributes => "`@nominify` and `@minify` (or `@minify-keep-comments`) are mutually exclusive: one says \"never minify this block\" and the other says \"always minify this block.\" Drop one."@,
            Code::BadHeadingAnchor => "A heading anchor is a trailing `{#name}` where name matches `[a-z0-9-]+`: `## Title {#title}`. Fix the anchor syntax or remove the braces."@,
            Code::NestingTooDeep => "Blocks (lists, blockquotes, block shortcodes) nest at most 64 levels deep. Deeper nesting is almost always generated or accidental input; restructure the document."@,
            Code::MinifyFailed => "A code block is tagged with a minifiable language but does not lex in that language (e.g. an unterminated string, or pseudo-code tagged `json`). The block is emitted verbatim and compilation continues; fix the code or the language tag. Compiles with exit 0."@,
            Code::CodeBlockLineCount => "A code block is being minified to a single (or near-single) line, but the original spanned more than 50 lines. After minification the LLM consumer cannot reference the original line numbers. Either accept this (silence with `@nominify`) or split the block into smaller pieces."@,
            Code::LineCommentConverted => "`@minify-keep-comments` converts `//` line comments into `/* */` block form so they can survive on a single minified line. Any `*/` inside the comment text is rewritten to `* /` so the block cannot close early. Use `@nominify` to keep the source verbatim instead."@,
            Code::RefusedLanguage => "Python, YAML, and Makefile use significant whitespace; minification cannot be performed safely without parsing the language. Such blocks are emitted verbatim and the LLM consumer pays full cost. Drop the `@minify` attribute or remove the language from `compile.llm.minify_languages`."@,
            Code::UnknownShortcode => "Shortcodes must be registered in `brief.toml` under `[shortcodes.<name>]` (or be a built-in: link, image, kbd, sub, sup, details, t, code, callout, math, footnote, ref). Note: `@br` is intentionally not a shortcode — use `\\` at end of line for a hard break."@,
            Code::ArgTypeMismatch => "A shortcode argument has the wrong type — e.g. a bare identifier where a quoted string is declared, or an int where an array is expected. The declared type is in `brief.toml` under `[shortcodes.<name>.arguments]` (built-ins are documented in the reference)."@,
            Code::MissingArg => "A required shortcode argument was not supplied. Add it as `@name(arg: value)` or positionally if the argument declares a `position`."@,
            Code::BadEnumValue => "The argument only accepts a fixed set of values (its `oneof` list). For example `@t(align: [...])` entries must be `left`, `right`, or `center`. Use one of the allowed values."@,
            Code::FormMismatch => "The shortcode was used in the wrong form: a block shortcode invoked inline, or an inline shortcode used as a block with `@end`. Check the shortcode's declared `kind`."@,
            Code::BadArgSyntax => "The argument list does not parse: unbalanced parentheses or brackets, a missing `:` after a keyword, an unterminated string, or an unclosed `(url)` in link sugar (percent-encode unmatched parens as %28/%29)."@,
            Code::DuplicateKwarg => "The same keyword argument is given more than once (possibly once positionally and once by name). Remove the duplicate."@,
            Code::DeprecatedCalloutKind => "This callout kind is a deprecated alias. Use the GFM set: note, tip, important, warning, caution. This is the compiler's only deprecation warning; it compiles with exit 0."@,
            Code::UnknownArg => "The shortcode does not declare an argument with this name. Check the spelling against the declared arguments (listed in the diagnostic's help text), or declare it in `brief.toml`."@,
            Code::OrderedListSequence => "Ordered lists must number 1, 2, 3, ... renumbering by the renderer is forbidden. Either fix the source or convert to an unordered list."@,
            Code::TableColumnMismatch => "Every row in a `@t` table must have the same number of cells as the header row. Add or remove cells until they match."@,
            Code::HeadingMonotonic => "With `compile.strict_heading_levels = true`, heading levels may increase by at most one per step (`#` to `##`, never `#` to `###`). Restructure the outline or disable the option."@,
            Code::AlignArrayLength => "`@t(align: [...])` must list exactly one alignment per table column. Add or remove entries until the array length matches the header's cell count."@,
            Code::BadDefinitionList => "A `@dl` body alternates term lines and `: definition` lines — colon, exactly one space, definition. Terms without definitions, definitions without terms, multiple definitions per term, and extra or missing spaces after `:` are all rejected."@,
            Code::DuplicateHeadingAnchor => "Two headings in this document declare the same `{#anchor}`. Anchors are `@ref` targets and must be unique within a file; rename one."@,
            Code::RefMissingFile => "Brief verifies cross-document references at compile time. The file referenced by `@ref[path.brf]` was not found anywhere under the project root (the directory containing `brief.toml`). Either fix the path, create the missing file, or move the file into the project tree."@,
            Code::RefMissingAnchor => "Brief verifies that the `#anchor` portion of `@ref[file.brf#anchor]` matches a heading anchor declared in the target file (e.g. `## Title {#anchor}`). The anchor was not found. The diagnostic's help text lists the anchors that *do* exist in the target file."@,
            Code::RefBadTarget => "`@ref` targets are project-relative `.brf` paths, optionally suffixed with `#anchor`. Leading `/`, `..` segments, backslashes, missing `.brf` extension, and anchors not matching `[a-z0-9-]+` are rejected. Restate the target in canonical form."@,
            Code::RefNoProject => "`@ref` only works inside a project rooted by a `brief.toml` file. The compiler walks up from the source file looking for one. Create a `brief.toml` (an empty file is fine) at the desired root, or remove the `@ref` invocation."@,
        }
    }

    pub fn explain(self) -> (r: &'static str)
        ensures
            r@ == self.explain_spec(),
    {
        match self {
            Code::InvalidUtf8 => "Brief sources must be valid UTF-8. Re-encode the file (e.g. `iconv -t UTF-8`) or find and fix the corrupt bytes at the reported offset.",
            Code::TabCharacter => "Tabs are forbidden in Brief sources. Configure your editor to insert two spaces.",
            Code::BomNotAtStart => "A UTF-8 byte-order mark is tolerated only as the very first bytes of the file. A BOM anywhere else is usually the result of concatenating files; delete it.",
            Code::UnexpectedChar => "The lexer found a character that cannot begin or continue any Brief construct at this position. Usually a control character or stray escape; delete or replace it.",
            Code::EmphasisSameMarker => "`*outer *inner* outer*` is ambiguous. Use a different marker for the inner span: `*outer _inner_ outer*`.",
            Code::EmphasisCrossLine => "Emphasis spans must open and close on the same source line. Close the span before the line break, or join the lines into one.",
            Code::DoubledEmphasis => "`**bold**`-style doubled markers are Markdown, not Brief. Brief uses single markers: `*bold*`, `_italic_`, `+underline+`, `~strike~`.",
            Code::UnterminatedEmph => "An emphasis marker opened a span that never closes on the same line. Close it, or escape the marker (`\\*`) if it's literal text.",
            Code::UnterminatedCode => "A backtick opened an inline code span that never closes on the same line. Close it, or use a double-backtick span (``` ``code with ` inside`` ```) when the code contains a backtick.",
            Code::HeadingTooDeep => "Brief supports six heading levels. `#######` and deeper are errors. Restructure the document or split it.",
            Code::HeadingNoSpace => "A heading marker is the `#`s followed by exactly one space: `# Title`. No space (or several) is an error so `#hashtag`-style text is never silently promoted to a heading.",
            Code::BadIndent => "Brief indentation is strict: two spaces per nesting level. An odd number of leading spaces (or a level skipped) cannot be interpreted unambiguously; re-indent to multiples of two.",
            Code::BadHorizontalRule => "A horizontal rule is exactly three dashes on their own line: `---`. Two dashes is too few; four or more is too many. This is strict so a typoed rule never silently becomes paragraph text.",
            Code::UnterminatedFence => "A ``` code fence was opened but never closed before end of file. Add the closing ``` line. To show fence syntax inside a code block, use the `@code ... @end` shortcode instead of nesting fences.",
            Code::UnterminatedBlock => "A block shortcode (`@details`, `@dl`, `@code`, a custom block) was never closed. Add `@end` at the same indentation as the opening line.",
            Code::InlineBlockComment => "`/* ... */` comments are block-level in Brief: they must start at the beginning of a line. For a comment after content on the same line there is no inline form — move it to its own line.",
            Code::BadListMarker => "Unordered list items are `- ` (dash, one space); ordered items are `1. ` (number, dot, one space). Markdown's `*` and `+` markers are not list markers in Brief.",
            Code::EmptyDocument => "The source contains no blocks — only whitespace or comments. Brief treats a document with nothing to render as an error rather than emitting an empty output file.",
            Code::BadBlockquote => "Blockquote markers are `>` (or `>>`, `>>>` for nesting) followed by exactly one space. `>text` without the space is rejected so accidental `>` characters are caught.",
            Code::StrayEnd => "`@end` closes a block shortcode, but no block shortcode is open here. Remove it, or check the indentation of the opening line — `@end` must sit at the same indent.",
            Code::StrayContent => "Content appears where the current construct does not allow it — most commonly a `|` row outside a `@t` table. Wrap table rows in `@t ... `(rows end at the first non-`|` line).",
            Code::UnterminatedFrontmatter => "A frontmatter block opened with `+++` was never closed. Add a closing `+++` line, or remove the opening if the document has no metadata.",
            Code::FrontmatterToml => "Frontmatter content must be valid TOML. Brief deliberately uses TOML (not YAML) to match `brief.toml`. Fix the TOML syntax in the `+++ ... +++` block.",
            Code::UnknownCodeAttribute => "Code-fence attributes are `@`-prefixed identifiers after the language tag (e.g. ```json @nominify). v0.4 recognizes `@nominify`, `@minify`, and `@minify-keep-comments`. Anything else is a compile error so typos are caught early.",
            Code::ConflictingCodeAttributes => "`@nominify` and `@minify` (or `@minify-keep-comments`) are mutually exclusive: one says \"never minify this block\" and the other says \"always minify this block.\" Drop one.",
            Code::BadHeadingAnchor => "A heading anchor is a trailing `{#name}` where name matches `[a-z0-9-]+`: `## Title {#title}`. Fix the anchor syntax or remove the braces.",
            Code::NestingTooDeep => "Blocks (lists, blockquotes, block shortcodes) nest at most 64 levels deep. Deeper nesting is almost always generated or accidental input; restructure the document.",
            Code::MinifyFailed => "A code block is tagged with a minifiable language but does not lex in that language (e.g. an unterminated string, or pseudo-code tagged `json`). The block is emitted verbatim and compilation continues; fix the code or the language tag. Compiles with exit 0.",
            Code::CodeBlockLineCount => "A code block is being minified to a single (or near-single) line, but the original spanned more than 50 lines. After minification the LLM consumer cannot reference the original line numbers. Either accept this (silence with `@nominify`) or split the block into smaller pieces.",
            Code::LineCommentConverted => "`@minify-keep-comments` converts `//` line comments into `/* */` block form so they can survive on a single minified line. Any `*/` inside the comment text is rewritten to `* /` so the block cannot close early. Use `@nominify` to keep the source verbatim instead.",
            Code::RefusedLanguage => "Python, YAML, and Makefile use significant whitespace; minification cannot be performed safely without parsing the language. Such blocks are emitted verbatim and the LLM consumer pays full cost. Drop the `@minify` attribute or remove the language from `compile.llm.minify_languages`.",
            Code::UnknownShortcode => "Shortcodes must be registered in `brief.toml` under `[shortcodes.<name>]` (or be a built-in: link, image, kbd, sub, sup, details, t, code, callout, math, footnote, ref). Note: `@br` is intentionally not a shortcode — use `\\` at end of line for a hard break.",
            Code::ArgTypeMismatch => "A shortcode argument has the wrong type — e.g. a bare identifier where a quoted string is declared, or an int where an array is expected. The declared type is in `brief.toml` under `[shortcodes.<name>.arguments]` (built-ins are documented in the reference).",
            Code::MissingArg => "A required shortcode argument was not supplied. Add it as `@name(arg: value)` or positionally if the argument declares a `position`.",
            Code::BadEnumValue => "The argument only accepts a fixed set of values (its `oneof` list). For example `@t(align: [...])` entries must be `left`, `right`, or `center`. Use one of the allowed values.",
            Code::FormMismatch => "The shortcode was used in the wrong form: a block shortcode invoked inline, or an inline shortcode used as a block with `@end`. Check the shortcode's declared `kind`.",
            Code::BadArgSyntax => "The argument list does not parse: unbalanced parentheses or brackets, a missing `:` after a keyword, an unterminated string, or an unclosed `(url)` in link sugar (percent-encode unmatched parens as %28/%29).",
            Code::DuplicateKwarg => "The same keyword argument is given more than once (possibly once positionally and once by name). Remove the duplicate.",
            Code::DeprecatedCalloutKind => "This callout kind is a deprecated alias. Use the GFM set: note, tip, important, warning, caution. This is the compiler's only deprecation warning; it compiles with exit 0.",
            Code::UnknownArg => "The shortcode does not declare an argument with this name. Check the spelling against the declared arguments (listed in the diagnostic's help text), or declare it in `brief.toml`.",
            Code::OrderedListSequence => "Ordered lists must number 1, 2, 3, ... renumbering by the renderer is forbidden. Either fix the source or convert to an unordered list.",
            Code::TableColumnMismatch => "Every row in a `@t` table must have the same number of cells as the header row. Add or remove cells until they match.",
            Code::HeadingMonotonic => "With `compile.strict_heading_levels = true`, heading levels may increase by at most one per step (`#` to `##`, never `#` to `###`). Restructure the outline or disable the option.",
            Code::AlignArrayLength => "`@t(align: [...])` must list exactly one alignment per table column. Add or remove entries until the array length matches the header's cell count.",
            Code::BadDefinitionList => "A `@dl` body alternates term lines and `: definition` lines — colon, exactly one space, definition. Terms without definitions, definitions without terms, multiple definitions per term, and extra or missing spaces after `:` are all rejected.",
            Code::DuplicateHeadingAnchor => "Two headings in this document declare the same `{#anchor}`. Anchors are `@ref` targets and must be unique within a file; rename one.",
            Code::RefMissingFile => "Brief verifies cross-document references at compile time. The file referenced by `@ref[path.brf]` was not found anywhere under the project root (the directory containing `brief.toml`). Either fix the path, create the missing file, or move the file into the project tree.",
            Code::RefMissingAnchor => "Brief verifies that the `#anchor` portion of `@ref[file.brf#anchor]` matches a heading anchor declared in the target file (e.g. `## Title {#anchor}`). The anchor was not found. The diagnostic's help text lists the anchors that *do* exist in the target file.",
            Code::RefBadTarget => "`@ref` targets are project-relative `.brf` paths, optionally suffixed with `#anchor`. Leading `/`, `..` segments, backslashes, missing `.brf` extension, and anchors not matching `[a-z0-9-]+` are rejected. Restate the target in canonical form.",
            Code::RefNoProject => "`@ref` only works inside a project rooted by a `brief.toml` file. The compiler walks up from the source file looking for one. Create a `brief.toml` (an empty file is fine) at the desired root, or remove the `@ref` invocation.",
        }
    }

    /// Every code, in the order `all` lists them.
    pub open spec fn all_spec() -> Seq<Code> {
        seq![
            Code::InvalidUtf8,
            Code::TabCharacter,
            Code::BomNotAtStart,
            Code::UnexpectedChar,
            Code::EmphasisSameMarker,
            Code::EmphasisCrossLine,
            Code::DoubledEmphasis,
            Code::UnterminatedEmph,
            Code::UnterminatedCode,
            Code::HeadingTooDeep,
            Code::HeadingNoSpace,
            Code::BadIndent,
            Code::BadHorizontalRule,
            Code::UnterminatedFence,
            Code::UnterminatedBlock,
            Code::InlineBlockComment,
            Code::BadListMarker,
            Code::EmptyDocument,
            Code::BadBlockquote,
            Code::StrayEnd,
            Code::StrayContent,
            Code::UnterminatedFrontmatter,
            Code::FrontmatterToml,
            Code::UnknownCodeAttribute,
            Code::ConflictingCodeAttributes,
            Code::BadHeadingAnchor,
            Code::NestingTooDeep,
            Code::UnknownShortcode,
            Code::ArgTypeMismatch,
            Code::MissingArg,
            Code::BadEnumValue,
            Code::FormMismatch,
            Code::BadArgSyntax,
            Code::DuplicateKwarg,
            Code::DeprecatedCalloutKind,
            Code::UnknownArg,
            Code::OrderedListSequence,
            Code::TableColumnMismatch,
            Code::HeadingMonotonic,
            Code::AlignArrayLength,
            Code::BadDefinitionList,
            Code::DuplicateHeadingAnchor,
            Code::RefMissingFile,
            Code::RefMissingAnchor,
            Code::RefBadTarget,
            Code::RefNoProject,
            Code::MinifyFailed,
            Code::CodeBlockLineCount,
            Code::LineCommentConverted,
            Code::RefusedLanguage,
        ]
    }

    pub fn all() -> (v: Vec<Code>)
        ensures
            v@ == Code::all_spec(),
    {
        let v = vec![
            Code::InvalidUtf8,
            Code::TabCharacter,
            Code::BomNotAtStart,
            Code::UnexpectedChar,
            Code::EmphasisSameMarker,
            Code::EmphasisCrossLine,
            Code::DoubledEmphasis,
            Code::UnterminatedEmph,
            Code::UnterminatedCode,
            Code::HeadingTooDeep,
            Code::HeadingNoSpace,
            Code::BadIndent,
            Code::BadHorizontalRule,
            Code::UnterminatedFence,
            Code::UnterminatedBlock,
            Code::InlineBlockComment,
            Code::BadListMarker,
            Code::EmptyDocument,
            Code::BadBlockquote,
            Code::StrayEnd,
            Code::StrayContent,
            Code::UnterminatedFrontmatter,
            Code::FrontmatterToml,
            Code::UnknownCodeAttribute,
            Code::ConflictingCodeAttributes,
            Code::BadHeadingAnchor,
            Code::NestingTooDeep,
            Code::UnknownShortcode,
            Code::ArgTypeMismatch,
            Code::MissingArg,
            Code::BadEnumValue,
            Code::FormMismatch,
            Code::BadArgSyntax,
            Code::DuplicateKwarg,
            Code::DeprecatedCalloutKind,
            Code::UnknownArg,
            Code::OrderedListSequence,
            Code::TableColumnMismatch,
            Code::HeadingMonotonic,
            Code::AlignArrayLength,
            Code::BadDefinitionList,
            Code::DuplicateHeadingAnchor,
            Code::RefMissingFile,
            Code::RefMissingAnchor,
            Code::RefBadTarget,
            Code::RefNoProject,
            Code::MinifyFailed,
            Code::CodeBlockLineCount,
            Code::LineCommentConverted,
            Code::RefusedLanguage,
        ];
        assert(v@ =~= Code::all_spec());
        v
    }

    /// The code as printed: `B` and its number in four digits.
    pub open spec fn text_spec(self) -> Seq<char> {
        seq!['B'] + pad4(self.spec_number())
    }

    /// The code as printed (see `text_spec`).
    pub fn as_str(self) -> (s: String)
        ensures
            s@ == seq!['B'] + pad4(self.spec_number()),
    {
        let mut v: Vec<char> = Vec::new();
        v.push('B');
        let n = self.number();
        push_pad4(&mut v, n as usize);
        chars_to_string(v.as_slice())
    }
}

/// Decimal form of `n`, left-padded with zeros to at least four digits.
pub open spec fn pad4(n: nat) -> Seq<char> {
    let d = dec(n);
    if d.len() >= 4 {
        d
    } else {
        Seq::new((4 - d.len()) as nat, |i: int| '0') + d
    }
}

/// Append `pad4(n)`.
pub fn push_pad4(out: &mut Vec<char>, n: usize)
    ensures
        final(out)@ == old(out)@ + pad4(n as nat),
{
    let mut d: Vec<char> = Vec::new();
    push_usize(&mut d, n);
    assert(d@ =~= dec(n as nat));
    let mut k = d.len();
    let ghost start = out@;
    assert(out@ =~= start + Seq::new((k - d@.len()) as nat, |i: int| '0'));
    while k < 4
        invariant
            d@ == dec(n as nat),
            d@.len() <= k,
            k <= 4 || k == d@.len(),
            out@ == start + Seq::new((k - d@.len()) as nat, |i: int| '0'),
        decreases 4 - k,
    {
        out.push('0');
        k = k + 1;
        assert(out@ =~= start + Seq::new((k - d@.len()) as nat, |i: int| '0'));
    }
    push_all(out, d.as_slice());
    if d.len() >= 4 {
        assert(out@ =~= start + pad4(n as nat));
    } else {
        assert(out@ =~= start + pad4(n as nat));
    }
}

/// A diagnostic: code, location, optional label and help, severity.
#[derive(Clone, Debug)]
pub struct Diagnostic {
    pub code: Code,
    pub span: Span,
    pub label: Option<String>,
    pub help: Option<String>,
    pub severity: Severity,
}

impl Diagnostic {
    /// An error with no label or help.
    pub fn new(code: Code, span: Span) -> (d: Diagnostic)
        ensures
            d.code == code,
            d.span == span,
            d.label.is_none(),
            d.help.is_none(),
            d.severity == Severity::Error,
    {
        Diagnostic { code, span, label: None, help: None, severity: Severity::Error }
    }

    /// A warning with no label or help.
    pub fn warning(code: Code, span: Span) -> (d: Diagnostic)
        ensures
            d.code == code,
            d.span == span,
            d.label.is_none(),
            d.help.is_none(),
            d.severity == Severity::Warning,
    {
        Diagnostic { code, span, label: None, help: None, severity: Severity::Warning }
    }

    /// The same diagnostic with its label set to `s`.
    pub fn label(self, s: &str) -> (d: Diagnostic)
        ensures
            d.code == self.code,
            d.span == self.span,
            d.label matches Some(l) && l@ == s@,
            d.help == self.help,
            d.severity == self.severity,
    {
        Diagnostic { label: Some(s.to_string()), ..self }
    }

    /// The same diagnostic with its help set to `s`.
    pub fn help(self, s: &str) -> (d: Diagnostic)
        ensures
            d.code == self.code,
            d.span == self.span,
            d.label == self.label,
            d.help matches Some(h) && h@ == s@,
            d.severity == self.severity,
    {
        Diagnostic { help: Some(s.to_string()), ..self }
    }
}

/// The header line of a rendered diagnostic: `error[B0104]: message`.
pub open spec fn header_line(d: Diagnostic) -> Seq<char> {
    (if d.severity == Severity::Error {
        "error"@
    } else {
        "warning"@
    }) + seq!['['] + seq!['B'] + pad4(d.code.spec_number()) + "]: "@
}

/// `n` copies of `c`.
pub open spec fn repeat_char(c: char, n: nat) -> Seq<char> {
    Seq::new(n, |_i: int| c)
}

/// `n` right-aligned to width three.
pub open spec fn pad3(n: nat) -> Seq<char> {
    let d = dec(n);
    repeat_char(' ', if d.len() < 3 { (3 - d.len()) as nat } else { 0 }) + d
}

/// Append `pad3(n)`.
fn push_pad3(out: &mut Vec<char>, n: usize)
    ensures
        final(out)@ == old(out)@ + pad3(n as nat),
{
    let mut d: Vec<char> = Vec::new();
    push_usize(&mut d, n);
    assert(d@ =~= dec(n as nat));
    let ghost o = out@;
    let mut k = d.len();
    let ghost k0 = k;
    while k < 3
        invariant
            k0 <= k,
            k0 == d@.len(),
            k0 < 3 ==> k <= 3,
            k0 >= 3 ==> k == k0,
            out@ =~= o + repeat_char(' ', (k - k0) as nat),
        decreases 3 - k,
    {
        out.push(' ');
        k = k + 1;
        assert(out@ =~= o + repeat_char(' ', (k - k0) as nat));
    }
    assert(out@ =~= o + repeat_char(' ', if k0 < 3 { (3 - k0) as nat } else { 0 }));
    push_all(out, d.as_slice());
}

/// Number of carets under a span of `span_len` bytes that starts at column
/// `col` of a line of `text_len` chars: the span's length, at least one,
/// cut at the end of the line, and at least one.
pub open spec fn caret_count(span_len: int, col: int, text_len: int) -> nat {
    let before = col - 1;
    let remaining = if text_len > before { text_len - before } else { 0 };
    let max_len = if remaining > 1 { remaining } else { 1 };
    let span = if span_len > 1 { span_len } else { 1 };
    (if span < max_len { span } else { max_len }) as nat
}

/// The message and the location line of a rendered diagnostic.
pub open spec fn location_part(d: Diagnostic, path: Seq<char>, line: nat, col: nat) -> Seq<char> {
    d.code.message_spec() + seq!['\n'] + "  --> "@ + path + seq![':'] + dec(line) + seq![':'] + dec(col)
        + seq!['\n']
}

/// The source excerpt of a rendered diagnostic: the line with its number,
/// then carets under the span followed by the label.
pub open spec fn excerpt_part(d: Diagnostic, line: nat, col: nat, text: Seq<char>) -> Seq<char> {
    "   |\n"@ + pad3(line) + " | "@ + text + seq!['\n'] + "   | "@ + repeat_char(' ', (col - 1) as nat)
        + repeat_char('^', caret_count(d.span.len as int, col as int, text.len() as int)) + seq![' ']
        + label_text(d) + seq!['\n']
}

/// The label of `d`, or nothing.
pub open spec fn label_text(d: Diagnostic) -> Seq<char> {
    match d.label {
        Some(l) => l@,
        None => seq![],
    }
}

/// The help lines of a rendered diagnostic, if it has help.
pub open spec fn help_part(d: Diagnostic) -> Seq<char> {
    match d.help {
        Some(h) => "   |\n"@ + "   = help: "@ + h@ + seq!['\n'],
        None => seq![],
    }
}

/// A diagnostic rendered at `line`:`col` of the file `path`, whose line
/// reads `text`: the header and message, the location, the line with its
/// number, carets under the span and the label, then the help if any.
pub open spec fn render_text(d: Diagnostic, path: Seq<char>, line: nat, col: nat, text: Seq<char>) -> Seq<char> {
    header_line(d) + location_part(d, path, line, col) + excerpt_part(d, line, col, text) + help_part(d)
}

/// `d` rendered against `src`, located at byte `start`.
pub open spec fn render_at_spec(d: Diagnostic, src: SourceMap, start: int) -> Seq<char> {
    let line = src.line_of(start);
    render_text(d, src.path_view(), line as nat, src.col_of(line, start) as nat, src.line_text_spec(line))
}

/// `d` rendered against `src` at its own start, moved back to the end of
/// the source when it lies past it.
pub open spec fn render_spec(d: Diagnostic, src: SourceMap) -> Seq<char> {
    render_at_spec(d, src, if d.span.start <= src.byte_len() { d.span.start as int } else { src.byte_len() as int })
}

/// Each diagnostic rendered (`render_spec`), separated by blank lines.
pub open spec fn render_all_spec(ds: Seq<Diagnostic>, src: SourceMap) -> Seq<char>
    decreases ds.len(),
{
    if ds.len() == 0 {
        seq![]
    } else if ds.len() == 1 {
        render_spec(ds[0], src)
    } else {
        render_all_spec(ds.drop_last(), src) + seq!['\n'] + render_spec(ds.last(), src)
    }
}

/// Render one diagnostic with a source excerpt and carets under the span.
pub fn render(diag: &Diagnostic, src: &SourceMap) -> (s: String)
    requires
        src.wf(),
        diag.span.start <= src.byte_len(),
    ensures
        s@ == render_spec(*diag, *src),
        s@.len() >= header_line(*diag).len(),
        s@.subrange(0, header_line(*diag).len() as int) == header_line(*diag),
{
    render_at(diag, diag.span.start, src)
}

/// `render`, located at byte `start` in place of the span's own start.
fn render_at(diag: &Diagnostic, start: u32, src: &SourceMap) -> (s: String)
    requires
        src.wf(),
        start <= src.byte_len(),
    ensures
        s@ == render_at_spec(*diag, *src, start as int),
        s@.len() >= header_line(*diag).len(),
        s@.subrange(0, header_line(*diag).len() as int) == header_line(*diag),
{
    let mut out: Vec<char> = Vec::new();
    let (line, col) = src.line_col(start);
    if diag.severity == Severity::Error {
        push_str(&mut out, "error");
    } else {
        push_str(&mut out, "warning");
    }
    out.push('[');
    out.push('B');
    push_pad4(&mut out, diag.code.number() as usize);
    push_str(&mut out, "]: ");
    let ghost head = out@;
    assert(head =~= header_line(*diag));
    let line_text = src.line_text(line);
    push_location(&mut out, diag, src.path_str(), line, col);
    push_excerpt(&mut out, diag, line, col, line_text.as_str());
    push_help(&mut out, diag);
    proof {
        let path = src.path_view();
        let loc = location_part(*diag, path, line as nat, col as nat);
        let ex = excerpt_part(*diag, line as nat, col as nat, line_text@);
        assert(out@ =~= head + loc + ex + help_part(*diag));
        assert(out@.subrange(0, head.len() as int) =~= head);
    }
    chars_to_string(out.as_slice())
}

/// Append `location_part`.
fn push_location(out: &mut Vec<char>, diag: &Diagnostic, path: &str, line: usize, col: usize)
    ensures
        final(out)@ == old(out)@ + location_part(*diag, path@, line as nat, col as nat),
{
    let ghost o = out@;
    push_str(out, diag.code.message());
    out.push('\n');
    push_str(out, "  --> ");
    push_str(out, path);
    out.push(':');
    push_usize(out, line);
    out.push(':');
    push_usize(out, col);
    out.push('\n');
    assert(out@ =~= o + location_part(*diag, path@, line as nat, col as nat));
}

/// Append `excerpt_part`.
fn push_excerpt(out: &mut Vec<char>, diag: &Diagnostic, line: usize, col: usize, line_text: &str)
    requires
        col >= 1,
    ensures
        final(out)@ == old(out)@ + excerpt_part(*diag, line as nat, col as nat, line_text@),
{
    let ghost o = out@;
    push_str(out, "   |\n");
    push_pad3(out, line);
    push_str(out, " | ");
    push_str(out, line_text);
    out.push('\n');
    push_str(out, "   | ");
    let ghost lead = "   |\n"@ + pad3(line as nat) + " | "@ + line_text@ + seq!['\n'] + "   | "@;
    assert(out@ =~= o + lead);
    let ghost r0 = out@;
    let mut k: usize = 1;
    while k < col
        invariant
            1 <= k <= col,
            out@ =~= r0 + repeat_char(' ', (k - 1) as nat),
        decreases col - k,
    {
        out.push(' ');
        k = k + 1;
        assert(out@ =~= r0 + repeat_char(' ', (k - 1) as nat));
    }
    let text_chars = str_chars(line_text);
    let len_chars = text_chars.len();
    let before = col - 1;
    let line_remaining = if len_chars > before {
        len_chars - before
    } else {
        0
    };
    let max_len = if line_remaining > 1 {
        line_remaining
    } else {
        1
    };
    let span_len = if diag.span.len > 1 {
        diag.span.len as usize
    } else {
        1
    };
    let caret_len = if span_len < max_len {
        span_len
    } else {
        max_len
    };
    assert(caret_len == caret_count(diag.span.len as int, col as int, line_text@.len() as int));
    let ghost r1 = out@;
    let mut c: usize = 0;
    while c < caret_len
        invariant
            c <= caret_len,
            out@ =~= r1 + repeat_char('^', c as nat),
        decreases caret_len - c,
    {
        out.push('^');
        c = c + 1;
        assert(out@ =~= r1 + repeat_char('^', c as nat));
    }
    out.push(' ');
    match &diag.label {
        Some(l) => push_str(out, l.as_str()),
        None => {},
    }
    out.push('\n');
    proof {
        let spaces = repeat_char(' ', (col - 1) as nat);
        let carets = repeat_char('^', caret_len as nat);
        assert(out@ =~= o + (lead + spaces + carets + seq![' '] + label_text(*diag) + seq!['\n']));
    }
}

/// Append `help_part`.
fn push_help(out: &mut Vec<char>, diag: &Diagnostic)
    ensures
        final(out)@ == old(out)@ + help_part(*diag),
{
    let ghost o = out@;
    match &diag.help {
        Some(h) => {
            push_str(out, "   |\n");
            push_str(out, "   = help: ");
            push_str(out, h.as_str());
            out.push('\n');
        },
        None => {},
    }
    assert(out@ =~= o + help_part(*diag));
}

/// Render every diagnostic, separated by blank lines.
pub fn render_all(diags: &[Diagnostic], src: &SourceMap) -> (s: String)
    requires
        src.wf(),
        forall|i: int| 0 <= i < diags@.len() ==> #[trigger] diags@[i].span.start <= src.byte_len(),
    ensures
        s@ == render_all_spec(diags@, *src),
        diags@.len() == 0 ==> s@.len() == 0,
        diags@.len() > 0 ==> starts_with_header(s@, diags@[0]),
{
    render_list(diags, src)
}

/// Every diagnostic rendered (`render_spec`), separated by blank lines.
fn render_list(diags: &[Diagnostic], src: &SourceMap) -> (s: String)
    requires
        src.wf(),
    ensures
        s@ == render_all_spec(diags@, *src),
        diags@.len() == 0 ==> s@.len() == 0,
        diags@.len() > 0 ==> starts_with_header(s@, diags@[0]),
{
    let len = src.len_bytes();
    let mut out: Vec<char> = Vec::new();
    let mut i: usize = 0;
    assert(diags@.take(0) =~= Seq::<Diagnostic>::empty());
    while i < diags.len()
        invariant
            src.wf(),
            len == src.byte_len(),
            i <= diags@.len(),
            out@ == render_all_spec(diags@.take(i as int), *src),
            i == 0 ==> out@.len() == 0,
            i > 0 ==> starts_with_header(out@, diags@[0]),
        decreases diags@.len() - i,
    {
        let d = &diags[i];
        let start: u32 = if (d.span.start as usize) <= len {
            d.span.start
        } else {
            len as u32
        };
        let ghost before = out@;
        if i > 0 {
            out.push('\n');
        }
        let r = render_at(d, start, src);
        push_str(&mut out, r.as_str());
        proof {
            let t = diags@.take(i + 1);
            assert(t.drop_last() =~= diags@.take(i as int));
            assert(t.last() == diags@[i as int]);
            if i > 0 {
                let h = header_line(diags@[0]);
                assert(out@.subrange(0, h.len() as int) =~= before.subrange(0, h.len() as int));
                assert(out@ =~= before + seq!['\n'] + r@);
            } else {
                assert(out@ =~= r@);
                assert(t.len() == 1 && t[0] == diags@[0]);
            }
        }
        i = i + 1;
    }
    assert(diags@.take(diags@.len() as int) =~= diags@);
    chars_to_string(out.as_slice())
}

/// `render_all` for diagnostics from any source: a span that starts past
/// the end of the source is reported at the end.
pub fn render_all_clamped(diags: &Vec<Diagnostic>, src: &SourceMap) -> (s: String)
    requires
        src.wf(),
    ensures
        s@ == render_all_spec(diags@, *src),
        diags@.len() == 0 ==> s@.len() == 0,
        diags@.len() > 0 ==> starts_with_header(s@, diags@[0]),
{
    render_list(diags.as_slice(), src)
}

/// `s` begins with the header line of `d`.
pub open spec fn starts_with_header(s: Seq<char>, d: Diagnostic) -> bool {
    s.len() >= header_line(d).len() && s.subrange(0, header_line(d).len() as int) == header_line(d)
}

/// `d` holds, at or after index `from`, an error with `code` at `span`.
pub open spec fn reported(d: Seq<Diagnostic>, from: int, code: Code, span: Span) -> bool {
    exists|j: int|
        from <= j < d.len() && (#[trigger] d[j]).code == code && d[j].span == span && d[j].severity
            == Severity::Error
}

/// Appending a diagnostic keeps every earlier report.
pub proof fn lemma_reported_push(d: Seq<Diagnostic>, from: int, x: Diagnostic, code: Code, span: Span)
    requires
        0 <= from,
        reported(d, from, code, span),
    ensures
        reported(d.push(x), from, code, span),
{
    let j = choose|j: int|
        from <= j < d.len() && (#[trigger] d[j]).code == code && d[j].span == span && d[j].severity
            == Severity::Error;
    assert(d.push(x)[j] == d[j]);
}

/// `d1` is `d0` with diagnostics appended.
pub open spec fn grows(d0: Seq<Diagnostic>, d1: Seq<Diagnostic>) -> bool {
    d0.len() <= d1.len() && d1.subrange(0, d0.len() as int) == d0
}

/// A report survives appending.
pub proof fn lemma_reported_grows(d0: Seq<Diagnostic>, d1: Seq<Diagnostic>, from: int, code: Code, span: Span)
    requires
        0 <= from,
        grows(d0, d1),
        reported(d0, from, code, span),
    ensures
        reported(d1, from, code, span),
{
    let j = choose|j: int|
        from <= j < d0.len() && (#[trigger] d0[j]).code == code && d0[j].span == span && d0[j].severity
            == Severity::Error;
    assert(d1.subrange(0, d0.len() as int)[j] == d1[j]);
}

/// A report from index `from1` on is one from any earlier index.
pub proof fn lemma_reported_earlier(d: Seq<Diagnostic>, from0: int, from1: int, code: Code, span: Span)
    requires
        from0 <= from1,
        reported(d, from1, code, span),
    ensures
        reported(d, from0, code, span),
{
}

} // verus!
