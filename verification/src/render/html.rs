//! The interactive HTML page: the tree data for the page script, the
//! metadata, the counters and the extension list.
use vstd::prelude::*;
use crate::text;
use crate::metrics::{self, CountsView};
use crate::report::MappingReport;

verus! {

/// A fixed piece of the page.
pub const PAGE_START: &'static str = "<!DOCTYPE html><html lang=\"pt-BR\"><head><meta charset=\"utf-8\"><meta name=\"viewport\" content=\"width=device-width, initial-scale=1\"><title>Atlas Mapper</title>";

/// A fixed piece of the page.
pub const PAGE_AFTER_HEAD_ASSETS: &'static str = "</head><body><div class=\"layout\"><aside class=\"panel sidebar\"><h1>Atlas Mapper</h1><p class=\"subtitle\">Visualizacao tecnica interativa da arvore de diretorios e arquivos mapeada pelo live server local do projeto Atlas.</p><div class=\"meta-list\"><div class=\"meta-item\"><span class=\"meta-label\">Origem analisada</span><p class=\"meta-value\"><code>";

/// A fixed piece of the page.
pub const PAGE_AFTER_SOURCE: &'static str = "</code></p></div><div class=\"meta-item\"><span class=\"meta-label\">Data de geracao</span><p class=\"meta-value\"><code>";

/// A fixed piece of the page.
pub const PAGE_AFTER_GENERATED: &'static str = "</code></p></div></div><input id=\"search\" class=\"search\" type=\"search\" placeholder=\"Buscar pasta ou arquivo...\"><div class=\"controls\"><button class=\"btn\" id=\"expandAll\" type=\"button\">Expandir tudo</button><button class=\"btn\" id=\"collapseAll\" type=\"button\">Recolher tudo</button></div>";

/// A fixed piece of the page.
pub const PAGE_BEFORE_DIRECTORIES: &'static str = "<div class=\"stats\"><div class=\"stat-card\"><span class=\"stat-label\">Pastas</span><span class=\"stat-value\">";

/// A fixed piece of the page.
pub const PAGE_AFTER_DIRECTORIES: &'static str = "</span></div><div class=\"stat-card\"><span class=\"stat-label\">Arquivos</span><span class=\"stat-value\">";

/// A fixed piece of the page.
pub const PAGE_AFTER_FILES: &'static str = "</span></div></div><div class=\"legend\"><span class=\"chip\"><span class=\"dot folder\"></span>Pastas</span><span class=\"chip\"><span class=\"dot file\"></span>Arquivos</span></div>";

/// A fixed piece of the page.
pub const PAGE_AFTER_EXTENSIONS: &'static str = "<p class=\"footer-note\">A arvore e navegavel por niveis. Use a busca para filtrar nomes e localizar rapidamente projetos, pastas tecnicas ou arquivos especificos.</p></aside><main class=\"panel content\"><div class=\"tree-toolbar\"><div><div class=\"tree-title\">";

/// A fixed piece of the page.
pub const PAGE_AFTER_TITLE: &'static str = "</div></div><div class=\"tree-status\">Interativo</div></div><div class=\"tree-wrap\"><ul id=\"treeRoot\" class=\"tree-root\"></ul></div></main></div><script id=\"tree-data\" type=\"application/json\">";

/// A fixed piece of the page.
pub const PAGE_AFTER_TREE: &'static str = "</script>";

/// A fixed piece of the page.
pub const PAGE_END: &'static str = "</body></html>";

/// The stylesheet link of a served page.
pub const STYLE_LINK: &'static str = "<link rel=\"stylesheet\" href=\"/assets/style.css\">";

/// The script tag of a served page.
pub const SCRIPT_LINK: &'static str = "<script src=\"/assets/app.js\"></script>";

/// The download links of a served page.
pub const DOWNLOAD_CONTROLS: &'static str = "<div class=\"downloads\"><a class=\"btn btn-link\" href=\"/download/html\">Baixar HTML</a><a class=\"btn btn-link\" href=\"/download/json\">Baixar JSON</a><a class=\"btn btn-link\" href=\"/download/markdown\">Baixar Markdown</a></div>";

/// The marker of a standalone page in place of the download links.
pub const STANDALONE_CONTROLS: &'static str = "<div class=\"downloads\"><span class=\"chip\">Arquivo standalone</span></div>";

/// The extension section when no extension was found.
pub const NO_EXTENSIONS: &'static str = "<div class=\"extensions\"><h2>Extensoes</h2><p class=\"footer-note\">Nenhuma extensao encontrada no acervo.</p></div>";

/// The start of the extension section.
pub const EXTENSIONS_START: &'static str = "<div class=\"extensions\"><h2>Extensoes</h2><ul class=\"extensions-list\">";

/// The end of the extension section.
pub const EXTENSIONS_END: &'static str = "</ul></div>";

}

verus! {

// ---------------------------------------------------------------------------
// Escaping
// ---------------------------------------------------------------------------

/// The HTML text for one character: the five characters with a meaning in
/// markup become entities, every other character stands for itself.
pub open spec fn escaped_char(c: char) -> Seq<char> {
    if c == '&' {
        "&amp;"@
    } else if c == '<' {
        "&lt;"@
    } else if c == '>' {
        "&gt;"@
    } else if c == '"' {
        "&quot;"@
    } else if c == '\'' {
        "&#39;"@
    } else {
        seq![c]
    }
}

/// Text escaped for HTML, character by character.
pub open spec fn escaped(s: Seq<char>) -> Seq<char>
    decreases s.len(),
{
    if s.len() == 0 {
        Seq::empty()
    } else {
        escaped(s.drop_last()) + escaped_char(s.last())
    }
}

/// Appends `value` escaped for HTML to `out`.
pub fn push_escaped(out: &mut String, value: &str)
    ensures
        final(out)@ == old(out)@ + escaped(value@),
{
    let v = text::chars_of(value);
    let ghost start = out@;
    let mut i: usize = 0;
    assert(escaped(value@.take(0)) =~= Seq::<char>::empty());
    while i < v.len()
        invariant
            v@ == value@,
            i <= v.len(),
            out@ == start + escaped(value@.take(i as int)),
        decreases v.len() - i,
    {
        let c = v[i];
        if c == '&' {
            text::push_text(out, "&amp;");
        } else if c == '<' {
            text::push_text(out, "&lt;");
        } else if c == '>' {
            text::push_text(out, "&gt;");
        } else if c == '"' {
            text::push_text(out, "&quot;");
        } else if c == '\'' {
            text::push_text(out, "&#39;");
        } else {
            text::push_char(out, c);
        }
        proof {
            assert(value@.take(i + 1).drop_last() =~= value@.take(i as int));
            assert(value@.take(i + 1).last() == c);
        }
        i = i + 1;
        assert(out@ =~= start + escaped(value@.take(i as int)));
    }
    assert(value@.take(i as int) =~= value@);
}

/// `value` escaped for HTML (`&`, `<`, `>`, `"` and `'` become entities).
pub fn escape_html(value: &str) -> (r: String)
    ensures
        r@ == escaped(value@),
{
    let mut r = String::new();
    push_escaped(&mut r, value);
    assert(r@ =~= escaped(value@));
    r
}

/// The tree data made safe inside a script element: every `</script` becomes
/// `<\/script`, so the data cannot close the element.
pub open spec fn script_safe(json: Seq<char>) -> Seq<char> {
    text::replace_all(json, "</script"@, "<\\/script"@)
}

/// The serialized tree made safe to embed in a script element.
pub fn json_for_script_tag(tree_json: &str) -> (r: String)
    ensures
        r@ == script_safe(tree_json@),
{
    proof {
        reveal_strlit("</script");
    }
    text::replace_text(tree_json, "</script", "<\\/script")
}

// ---------------------------------------------------------------------------
// The page
// ---------------------------------------------------------------------------

/// How the page gets its stylesheet and script: linked from the server, or
/// inlined so that the page stands alone.
pub enum AssetMode<'a> {
    External,
    Inline { style_css: &'a str, app_js: &'a str },
}

/// The view of an asset mode: `None` for linked assets, else the inlined
/// stylesheet and script.
pub open spec fn mode_view(m: AssetMode) -> Option<(Seq<char>, Seq<char>)> {
    match m {
        AssetMode::External => None,
        AssetMode::Inline { style_css, app_js } => Some((style_css@, app_js@)),
    }
}

/// The head assets of the page.
pub open spec fn head_assets(m: Option<(Seq<char>, Seq<char>)>) -> Seq<char> {
    match m {
        None => STYLE_LINK@,
        Some((css, _)) => "<style>"@ + css + "</style>"@,
    }
}

/// The script assets of the page.
pub open spec fn script_assets(m: Option<(Seq<char>, Seq<char>)>) -> Seq<char> {
    match m {
        None => SCRIPT_LINK@,
        Some((_, js)) => "<script>"@ + js + "</script>"@,
    }
}

/// The controls of the page: download links when served, a marker when
/// standalone.
pub open spec fn controls(m: Option<(Seq<char>, Seq<char>)>) -> Seq<char> {
    match m {
        None => DOWNLOAD_CONTROLS@,
        Some(_) => STANDALONE_CONTROLS@,
    }
}

/// The items of the extension list, in order.
pub open spec fn extension_items(s: CountsView) -> Seq<char>
    decreases s.len(),
{
    if s.len() == 0 {
        Seq::empty()
    } else {
        extension_items(s.drop_last()) + "<li><code>"@ + escaped(s.last().0) + "</code><span>"@
            + text::decimal_digits(s.last().1 as nat) + "</span></li>"@
    }
}

/// The extension section.
pub open spec fn extensions_section(s: CountsView) -> Seq<char> {
    if s.len() == 0 {
        NO_EXTENSIONS@
    } else {
        EXTENSIONS_START@ + extension_items(s) + EXTENSIONS_END@
    }
}

/// The whole page for a report, its serialized tree and an asset mode.
pub open spec fn html_page(r: MappingReport, tree_json: Seq<char>, m: Option<(Seq<char>, Seq<char>)>) -> Seq<char> {
    PAGE_START@ + head_assets(m)
        + PAGE_AFTER_HEAD_ASSETS@ + escaped(r.source@)
        + PAGE_AFTER_SOURCE@ + escaped(r.generated_at@)
        + PAGE_AFTER_GENERATED@ + controls(m)
        + PAGE_BEFORE_DIRECTORIES@ + text::decimal_digits(r.summary.total_directories as nat)
        + PAGE_AFTER_DIRECTORIES@ + text::decimal_digits(r.summary.total_files as nat)
        + PAGE_AFTER_FILES@ + extensions_section(r.summary.by_extension@)
        + PAGE_AFTER_EXTENSIONS@ + "Mapeamento do Diretorio <code>"@ + escaped(r.source@) + "</code>"@
        + PAGE_AFTER_TITLE@ + script_safe(tree_json)
        + PAGE_AFTER_TREE@ + script_assets(m)
        + PAGE_END@
}

/// The page served by the local server: linked assets and download links.
/// `tree_json` is the report's tree serialized as JSON.
pub fn render_index(report: &MappingReport, tree_json: &str) -> (r: String)
    ensures
        r@ == html_page(*report, tree_json@, None),
{
    render_html_page(report, tree_json, AssetMode::External)
}

/// The standalone page: stylesheet and script inlined, no download links.
/// `tree_json` is the report's tree serialized as JSON.
pub fn render_standalone(report: &MappingReport, tree_json: &str, style_css: &str, app_js: &str) -> (r: String)
    ensures
        r@ == html_page(*report, tree_json@, Some((style_css@, app_js@))),
{
    render_html_page(report, tree_json, AssetMode::Inline { style_css, app_js })
}

/// Renders the page in the given asset mode.
fn render_html_page(report: &MappingReport, tree_json: &str, asset_mode: AssetMode) -> (r: String)
    ensures
        r@ == html_page(*report, tree_json@, mode_view(asset_mode)),
{
    let m = Ghost(mode_view(asset_mode));
    let tree_text = json_for_script_tag(tree_json);
    let mut page = String::new();
    text::push_text(&mut page, PAGE_START);
    match asset_mode {
        AssetMode::External => text::push_text(&mut page, STYLE_LINK),
        AssetMode::Inline { style_css, .. } => {
            text::push_text(&mut page, "<style>");
            text::push_text(&mut page, style_css);
            text::push_text(&mut page, "</style>");
        },
    }
    text::push_text(&mut page, PAGE_AFTER_HEAD_ASSETS);
    push_escaped(&mut page, report.source.as_str());
    text::push_text(&mut page, PAGE_AFTER_SOURCE);
    push_escaped(&mut page, report.generated_at.as_str());
    text::push_text(&mut page, PAGE_AFTER_GENERATED);
    text::push_text(&mut page, render_controls(&asset_mode));
    text::push_text(&mut page, PAGE_BEFORE_DIRECTORIES);
    text::push_decimal(&mut page, report.summary.total_directories);
    text::push_text(&mut page, PAGE_AFTER_DIRECTORIES);
    text::push_decimal(&mut page, report.summary.total_files);
    text::push_text(&mut page, PAGE_AFTER_FILES);
    let extensions = render_extensions(&report.summary.by_extension);
    text::push_text(&mut page, extensions.as_str());
    text::push_text(&mut page, PAGE_AFTER_EXTENSIONS);
    text::push_text(&mut page, "Mapeamento do Diretorio <code>");
    push_escaped(&mut page, report.source.as_str());
    text::push_text(&mut page, "</code>");
    text::push_text(&mut page, PAGE_AFTER_TITLE);
    text::push_text(&mut page, tree_text.as_str());
    text::push_text(&mut page, PAGE_AFTER_TREE);
    match asset_mode {
        AssetMode::External => text::push_text(&mut page, SCRIPT_LINK),
        AssetMode::Inline { app_js, .. } => {
            text::push_text(&mut page, "<script>");
            text::push_text(&mut page, app_js);
            text::push_text(&mut page, "</script>");
        },
    }
    text::push_text(&mut page, PAGE_END);
    assert(page@ =~= html_page(*report, tree_json@, m@));
    page
}

/// The download links or the standalone marker.
fn render_controls(asset_mode: &AssetMode) -> (r: &'static str)
    ensures
        r@ == controls(mode_view(*asset_mode)),
{
    match asset_mode {
        AssetMode::External => DOWNLOAD_CONTROLS,
        AssetMode::Inline { .. } => STANDALONE_CONTROLS,
    }
}

/// The extension section of the page.
pub fn render_extensions(extensions: &metrics::ExtensionCounts) -> (r: String)
    ensures
        r@ == extensions_section(extensions@),
{
    if extensions.is_empty() {
        return text::owned(NO_EXTENSIONS);
    }
    let entries = extensions.entries();
    let mut items = String::new();
    let mut i: usize = 0;
    assert(extension_items(metrics::entries_view(entries@).take(0)) =~= Seq::<char>::empty());
    while i < entries.len()
        invariant
            i <= entries.len(),
            metrics::entries_view(entries@) == extensions@,
            items@ == extension_items(metrics::entries_view(entries@).take(i as int)),
        decreases entries.len() - i,
    {
        let ghost s = metrics::entries_view(entries@);
        text::push_text(&mut items, "<li><code>");
        push_escaped(&mut items, entries[i].0.as_str());
        text::push_text(&mut items, "</code><span>");
        text::push_decimal(&mut items, entries[i].1);
        text::push_text(&mut items, "</span></li>");
        proof {
            assert(s.take(i + 1).drop_last() =~= s.take(i as int));
            assert(s.take(i + 1).last() == s[i as int]);
        }
        i = i + 1;
        assert(items@ =~= extension_items(s.take(i as int)));
    }
    assert(metrics::entries_view(entries@).take(i as int) =~= extensions@);
    let mut r = text::owned(EXTENSIONS_START);
    text::push_text(&mut r, items.as_str());
    text::push_text(&mut r, EXTENSIONS_END);
    r
}

}
