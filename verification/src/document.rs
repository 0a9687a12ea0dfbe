//! What the reader decides about a document from its path alone: whether
//! the file browser offers it, how it is loaded, the format it is named
//! by, and the context envelope handed to an agent.

use vstd::prelude::*;
use crate::text::{
    ascii_lowercase, ascii_uppercase, chars_equal, chars_of, lines_of, lowercase_chars,
    replace_chars, replaced, string_of, text_lines, trim_end, trim_end_chars, uppercase_chars,
};
use crate::paths::{file_name_of, path_file_name};

verus! {

/// What `Path::extension` gives for `path`.
pub uninterp spec fn extension_of(path: Seq<char>) -> Option<Seq<char>>;

/// Trusted: `Path::extension`, named as `extension_of`.
#[verifier::external_body]
pub(crate) fn path_extension(path: &str) -> (r: Option<String>)
    ensures
        r matches Some(e) ==> extension_of(path@) == Some(e@),
        r is None ==> extension_of(path@) is None,
{
    std::path::Path::new(path).extension().map(|e| e.to_string_lossy().into_owned())
}

/// Extensions of text, Markdown and source files, read as they are.
pub open spec fn text_names() -> Seq<&'static str> {
    seq![
        "md", "markdown", "mdx", "txt", "text", "rst", "adoc", "org", "log", "json", "yaml", "yml",
        "toml", "csv", "tsv", "xml", "ini", "cfg", "conf", "rs", "py", "js", "ts", "tsx", "jsx",
        "go", "java", "kt", "c", "h", "cpp", "hpp", "cc", "cs", "rb", "php", "swift", "sh", "bash",
        "zsh", "fish", "sql", "lua", "hs", "ml", "ex", "exs", "scala", "dart", "vue", "css", "scss",
    ]
}

/// Extensions of HTML files, read with their tags removed.
pub open spec fn html_names() -> Seq<&'static str> {
    seq!["html", "htm"]
}

/// Extensions of files that an external converter turns into text.
pub open spec fn converted_names() -> Seq<&'static str> {
    seq!["pdf", "docx", "pptx", "xlsx", "epub", "odt", "odp", "ods", "rtf"]
}

/// Extensions of Markdown files.
pub open spec fn markdown_names() -> Seq<&'static str> {
    seq!["md", "markdown", "mdx"]
}

/// `ext` is one of `names`.
pub open spec fn named_in(names: Seq<&'static str>, ext: Seq<char>) -> bool {
    exists|i: int| 0 <= i < names.len() && #[trigger] names[i]@ == ext
}

/// The browser offers files with these (lowered) extensions.
pub open spec fn supported_extension(ext: Seq<char>) -> bool {
    named_in(text_names(), ext) || named_in(html_names(), ext) || named_in(converted_names(), ext)
}

/// The extension of `path` in lower case, empty when it has none.
pub open spec fn lowered_extension(path: Seq<char>) -> Seq<char> {
    match extension_of(path) {
        Some(e) => ascii_lowercase(e),
        None => seq![],
    }
}

/// How a document is turned into text.
#[derive(Clone, Copy, Debug, PartialEq, Eq, Structural)]
pub enum Loader {
    /// `pdftotext`, then `mutool`.
    Pdf,
    /// `pandoc`, then `markitdown` (and `textutil` on macOS).
    Office,
    /// Read, with the tags removed.
    Html,
    /// Read as it is.
    Text,
}

/// The loader for a document with the (lowered) extension `ext`.
pub open spec fn loader_of(ext: Seq<char>) -> Loader {
    if ext == "pdf"@ {
        Loader::Pdf
    } else if named_in(converted_names(), ext) {
        Loader::Office
    } else if named_in(html_names(), ext) {
        Loader::Html
    } else {
        Loader::Text
    }
}

/// The format a document with the (lowered) extension `ext` is named by.
pub open spec fn format_of(ext: Seq<char>) -> Seq<char> {
    if ext == "pdf"@ {
        "PDF"@
    } else if named_in(converted_names(), ext) {
        ascii_uppercase(ext)
    } else if named_in(html_names(), ext) {
        "HTML"@
    } else if named_in(markdown_names(), ext) {
        "MARKDOWN"@
    } else if ext.len() == 0 {
        "TEXT"@
    } else {
        ascii_uppercase(ext)
    }
}

fn text_list() -> (r: Vec<&'static str>)
    ensures
        r@ == text_names(),
{
    vec![
        "md", "markdown", "mdx", "txt", "text", "rst", "adoc", "org", "log", "json", "yaml", "yml",
        "toml", "csv", "tsv", "xml", "ini", "cfg", "conf", "rs", "py", "js", "ts", "tsx", "jsx",
        "go", "java", "kt", "c", "h", "cpp", "hpp", "cc", "cs", "rb", "php", "swift", "sh", "bash",
        "zsh", "fish", "sql", "lua", "hs", "ml", "ex", "exs", "scala", "dart", "vue", "css", "scss",
    ]
}

fn html_list() -> (r: Vec<&'static str>)
    ensures
        r@ == html_names(),
{
    vec!["html", "htm"]
}

fn converted_list() -> (r: Vec<&'static str>)
    ensures
        r@ == converted_names(),
{
    vec!["pdf", "docx", "pptx", "xlsx", "epub", "odt", "odp", "ods", "rtf"]
}

fn markdown_list() -> (r: Vec<&'static str>)
    ensures
        r@ == markdown_names(),
{
    vec!["md", "markdown", "mdx"]
}

fn listed(ext: &[char], names: &Vec<&'static str>) -> (r: bool)
    ensures
        r == named_in(names@, ext@),
{
    let mut i: usize = 0;
    while i < names.len()
        invariant
            i <= names@.len(),
            forall|k: int| 0 <= k < i ==> names@[k]@ != ext@,
        decreases names@.len() - i,
    {
        if chars_equal(&chars_of(names[i]), ext) {
            assert(names@[i as int]@ == ext@);
            return true;
        }
        i = i + 1;
    }
    false
}

fn owned(text: &str) -> (r: String)
    ensures
        r@ == text@,
{
    string_of(&chars_of(text))
}

/// The extension of `path` in lower case, empty when it has none.
pub fn document_extension(path: &str) -> (r: String)
    ensures
        r@ == lowered_extension(path@),
{
    match path_extension(path) {
        Some(e) => string_of(&lowercase_chars(&chars_of(e.as_str()))),
        None => String::new(),
    }
}

/// Whether the browser offers files with the (lowered) extension `ext`:
/// a text, Markdown, source, HTML or converted format.
pub fn is_supported_extension(ext: &str) -> (r: bool)
    ensures
        r == supported_extension(ext@),
{
    let ext = chars_of(ext);
    listed(&ext, &text_list()) || listed(&ext, &html_list()) || listed(&ext, &converted_list())
}

/// How a document with the (lowered) extension `ext` is turned into text.
pub fn loader_for_extension(ext: &str) -> (r: Loader)
    ensures
        r == loader_of(ext@),
{
    let ext = chars_of(ext);
    if chars_equal(&ext, &chars_of("pdf")) {
        Loader::Pdf
    } else if listed(&ext, &converted_list()) {
        Loader::Office
    } else if listed(&ext, &html_list()) {
        Loader::Html
    } else {
        Loader::Text
    }
}

/// The format a document with the (lowered) extension `ext` is named by.
pub fn format_for_extension(ext: &str) -> (r: String)
    ensures
        r@ == format_of(ext@),
{
    let ext = chars_of(ext);
    if chars_equal(&ext, &chars_of("pdf")) {
        owned("PDF")
    } else if listed(&ext, &converted_list()) {
        string_of(&uppercase_chars(&ext))
    } else if listed(&ext, &html_list()) {
        owned("HTML")
    } else if listed(&ext, &markdown_list()) {
        owned("MARKDOWN")
    } else if ext.len() == 0 {
        owned("TEXT")
    } else {
        string_of(&uppercase_chars(&ext))
    }
}

/// Whether the file browser offers the file at `path`.
pub fn is_supported_path(path: &str) -> (r: bool)
    ensures
        r == supported_extension(lowered_extension(path@)),
{
    is_supported_extension(document_extension(path).as_str())
}

/// How the document at `path` is turned into text.
pub fn loader_for(path: &str) -> (r: Loader)
    ensures
        r == loader_of(lowered_extension(path@)),
{
    loader_for_extension(document_extension(path).as_str())
}

/// The format the document at `path` is named by.
pub fn document_format(path: &str) -> (r: String)
    ensures
        r@ == format_of(lowered_extension(path@)),
{
    format_for_extension(document_extension(path).as_str())
}

/// The text of `s` outside tags: from a `<` to the next `>` nothing is
/// kept (`in_tag` says whether `s` starts inside a tag).
pub open spec fn without_tags(s: Seq<char>, in_tag: bool) -> Seq<char>
    decreases s.len(),
{
    if s.len() == 0 {
        seq![]
    } else if s[0] == '<' {
        without_tags(s.drop_first(), true)
    } else if s[0] == '>' {
        without_tags(s.drop_first(), false)
    } else if !in_tag {
        seq![s[0]] + without_tags(s.drop_first(), in_tag)
    } else {
        without_tags(s.drop_first(), in_tag)
    }
}

/// The text of an HTML document: its tags removed, then the entities
/// `&nbsp;`, `&lt;`, `&gt;`, `&quot;` and `&amp;` decoded, in that order.
pub open spec fn html_text(html: Seq<char>) -> Seq<char> {
    let text = without_tags(html, false);
    let text = replaced(text, "&nbsp;"@, " "@);
    let text = replaced(text, "&lt;"@, "<"@);
    let text = replaced(text, "&gt;"@, ">"@);
    let text = replaced(text, "&quot;"@, "\""@);
    replaced(text, "&amp;"@, "&"@)
}

fn replace_text(s: &[char], from: &str, to: &str) -> (r: Vec<char>)
    requires
        from@.len() > 0,
    ensures
        r@ == replaced(s@, from@, to@),
{
    replace_chars(s, &chars_of(from), &chars_of(to))
}

/// The normalized text of an HTML document.
pub fn strip_html(html: &str) -> (r: String)
    ensures
        r@ == html_text(html@),
{
    let chars = chars_of(html);
    let mut text: Vec<char> = Vec::new();
    let mut in_tag = false;
    let mut i: usize = 0;
    assert(chars@.skip(0) =~= chars@);
    assert(text@ + without_tags(chars@, false) =~= without_tags(chars@, false));
    while i < chars.len()
        invariant
            i <= chars@.len(),
            text@ + without_tags(chars@.skip(i as int), in_tag) == without_tags(html@, false),
            chars@ == html@,
        decreases chars@.len() - i,
    {
        let c = chars[i];
        let ghost rest = chars@.skip(i as int);
        let ghost before = text@;
        assert(rest.drop_first() =~= chars@.skip(i + 1));
        if c == '<' {
            in_tag = true;
        } else if c == '>' {
            in_tag = false;
        } else if !in_tag {
            text.push(c);
            assert(before + (seq![c] + without_tags(rest.drop_first(), false)) =~= text@
                + without_tags(chars@.skip(i + 1), false));
        }
        i = i + 1;
    }
    assert(chars@.skip(i as int) =~= Seq::<char>::empty());
    assert(text@ + Seq::<char>::empty() =~= text@);
    proof {
        reveal_strlit("&nbsp;");
        reveal_strlit("&lt;");
        reveal_strlit("&gt;");
        reveal_strlit("&quot;");
        reveal_strlit("&amp;");
    }
    let text = replace_text(&text, "&nbsp;", " ");
    let text = replace_text(&text, "&lt;", "<");
    let text = replace_text(&text, "&gt;", ">");
    let text = replace_text(&text, "&quot;", "\"");
    let text = replace_text(&text, "&amp;", "&");
    string_of(&text)
}

/// Text as the reader reads it from a file: each tab as four spaces.
pub fn expand_tabs(text: &str) -> (r: String)
    ensures
        r@ == replaced(text@, "\t"@, "    "@),
{
    proof {
        reveal_strlit("\t");
    }
    string_of(&replace_text(&chars_of(text), "\t", "    "))
}

/// One line of a loaded document as the reader draws it: its text, and
/// whether it is drawn as a heading.
pub struct DrawnLine {
    pub text: String,
    pub heading: bool,
}

/// A line is drawn as a heading in Markdown when it starts with `#`.
pub open spec fn is_heading(line: Seq<char>, markdown: bool) -> bool {
    markdown && line.len() > 0 && line[0] == '#'
}

/// The lines of a document's normalized `source`, as `str::lines` splits
/// it, each marked as a heading or not.
pub fn drawn_lines(source: &str, markdown: bool) -> (r: Vec<DrawnLine>)
    ensures
        r@.len() == text_lines(source@).len(),
        forall|i: int| 0 <= i < r@.len() ==> {
            &&& #[trigger] r@[i].text@ == text_lines(source@)[i]
            &&& r@[i].heading == is_heading(text_lines(source@)[i], markdown)
        },
{
    let lines = lines_of(&chars_of(source));
    let mut r: Vec<DrawnLine> = Vec::new();
    let mut i: usize = 0;
    while i < lines.len()
        invariant
            i <= lines@.len(),
            lines@.len() == text_lines(source@).len(),
            forall|k: int| 0 <= k < lines@.len() ==> #[trigger] lines@[k]@ == text_lines(source@)[k],
            r@.len() == i,
            forall|k: int| 0 <= k < i ==> {
                &&& #[trigger] r@[k].text@ == text_lines(source@)[k]
                &&& r@[k].heading == is_heading(text_lines(source@)[k], markdown)
            },
        decreases lines@.len() - i,
    {
        let line = &lines[i];
        let heading = markdown && line.len() > 0 && line[0] == '#';
        assert(heading == is_heading(text_lines(source@)[i as int], markdown));
        let ghost before = r@;
        r.push(DrawnLine { text: string_of(line), heading });
        assert(forall|k: int| 0 <= k < i ==> r@[k] == before[k]);
        i = i + 1;
    }
    r
}

/// The title a document is given: its file name, else `document`.
pub open spec fn title_of(path: Seq<char>) -> Seq<char> {
    match file_name_of(path) {
        Some(name) => name,
        None => "document"@,
    }
}

/// The context envelope: the document's title, source path and format,
/// a blank line, and the content without trailing white space.
pub open spec fn context_envelope(path: Seq<char>, format: Seq<char>, content: Seq<char>) -> Seq<
    char,
> {
    "<document>\ntitle: "@ + title_of(path) + "\nsource: "@ + path + "\nformat: "@ + format
        + "\n\n"@ + trim_end(content) + "\n</document>\n"@
}

/// The context envelope for the document at `path`, of the given format
/// and normalized content.
pub fn context_text(path: &str, format: &str, content: &str) -> (r: String)
    ensures
        r@ == context_envelope(path@, format@, content@),
{
    let title = match path_file_name(path) {
        Some(name) => name,
        None => owned("document"),
    };
    let body = string_of(&trim_end_chars(&chars_of(content)));
    let mut r = owned("<document>\ntitle: ");
    r.append(title.as_str());
    r.append("\nsource: ");
    r.append(path);
    r.append("\nformat: ");
    r.append(format);
    r.append("\n\n");
    r.append(body.as_str());
    r.append("\n</document>\n");
    r
}

} // verus!
