//! What the `serve` command prints once its session has started: the source,
//! the time, the server's address, the metrics, the warnings and the routes.
use vstd::prelude::*;
use crate::text;
use crate::report::MappingReport;
use crate::metrics::MetricsView;
use crate::warning::{self, WarningView};
use crate::scanner;

verus! {

/// The stream a console line is written to.
#[derive(Clone, Copy, Debug, PartialEq, Eq, Structural)]
pub enum Stream {
    Stdout,
    Stderr,
}

/// One line for the console, without its line break.
pub struct ConsoleLine {
    pub stream: Stream,
    pub text: String,
}

/// The value of a console line: its stream and its characters.
pub type LineView = (Stream, Seq<char>);

/// The values of a sequence of console lines.
pub open spec fn console_view(s: Seq<ConsoleLine>) -> Seq<LineView> {
    s.map_values(|l: ConsoleLine| (l.stream, l.text@))
}

/// A line for standard output.
pub open spec fn out(t: Seq<char>) -> LineView {
    (Stream::Stdout, t)
}

/// A line for standard error.
pub open spec fn err(t: Seq<char>) -> LineView {
    (Stream::Stderr, t)
}

/// The empty text.
pub open spec fn blank() -> Seq<char> {
    Seq::empty()
}

/// Where the mapping came from, when, and where it is served.
pub open spec fn header_lines(source: Seq<char>, generated_at: Seq<char>, url: Seq<char>) -> Seq<LineView> {
    seq![
        out("Atlas Mapper iniciado."@),
        out(blank()),
        out("Origem analisada:"@),
        out(source),
        out(blank()),
        out("Data de geracao:"@),
        out(generated_at),
        out(blank()),
        out("Servidor local:"@),
        out(url),
    ]
}

/// Whether the browser was to be opened, and why it could not be.
pub open spec fn browser_lines(open_browser: bool, browser_error: Option<Seq<char>>) -> Seq<LineView> {
    if open_browser {
        seq![out(blank()), out("Abertura automatica do navegador: habilitada"@)] + match browser_error {
            Some(e) => seq![err("Falha ao abrir o navegador automaticamente: "@ + e)],
            None => Seq::empty(),
        }
    } else {
        Seq::empty()
    }
}

/// One extension with its count.
pub open spec fn extension_line(e: (Seq<char>, u64)) -> LineView {
    out("  "@ + e.0 + ": "@ + text::decimal_digits(e.1 as nat))
}

/// The totals and the counts per extension, in the order they are kept.
pub open spec fn metrics_lines(m: MetricsView) -> Seq<LineView> {
    seq![
        out(blank()),
        out("Metricas iniciais:"@),
        out("Diretorios: "@ + text::decimal_digits(m.total_directories as nat)),
        out("Arquivos: "@ + text::decimal_digits(m.total_files as nat)),
    ] + if m.by_extension.len() == 0 {
        seq![out("Extensoes: nenhuma encontrada"@)]
    } else {
        seq![out("Extensoes:"@)] + m.by_extension.map_values(|e: (Seq<char>, u64)| extension_line(e))
    }
}

/// One warning, for standard error.
pub open spec fn warning_console_line(w: WarningView) -> LineView {
    err("[aviso:"@ + w.kind + "] "@ + w.path + " -> "@ + w.message)
}

/// When there were warnings: their number, the number of ignored items, and
/// each warning.
pub open spec fn warning_section(m: MetricsView, ws: Seq<WarningView>) -> Seq<LineView> {
    if m.warning_count > 0 {
        seq![
            out(blank()),
            out("Avisos de leitura: "@ + text::decimal_digits(m.warning_count as nat)),
            out("Itens ignorados: "@ + text::decimal_digits(m.ignored_items as nat)),
        ] + ws.map_values(|w: WarningView| warning_console_line(w))
    } else {
        Seq::empty()
    }
}

/// The routes listed under the server's address.
pub open spec fn route_lines(url: Seq<char>) -> Seq<LineView> {
    seq![
        out(blank()),
        out("Rotas disponiveis:"@),
        out(url + "/"@),
        out(url + "/api/tree"@),
        out(url + "/api/summary"@),
        out(url + "/download/html"@),
        out(url + "/download/json"@),
        out(url + "/download/markdown"@),
    ]
}

/// Everything the `serve` command prints once its session has started.
pub open spec fn serve_console(
    source: Seq<char>,
    generated_at: Seq<char>,
    url: Seq<char>,
    open_browser: bool,
    browser_error: Option<Seq<char>>,
    m: MetricsView,
    ws: Seq<WarningView>,
) -> Seq<LineView> {
    header_lines(source, generated_at, url) + browser_lines(open_browser, browser_error) + metrics_lines(m)
        + warning_section(m, ws) + route_lines(url)
}

/// Appends one line.
fn emit(lines: &mut Vec<ConsoleLine>, stream: Stream, t: String)
    ensures
        console_view(final(lines)@) == console_view(old(lines)@).push((stream, t@)),
{
    let ghost before = console_view(lines@);
    lines.push(ConsoleLine { stream, text: t });
    assert(console_view(lines@) =~= before.push((stream, t@)));
}

/// A line made of a text and a number.
fn numbered(label: &str, n: u64) -> (r: String)
    ensures
        r@ == label@ + text::decimal_digits(n as nat),
{
    let mut r = text::owned(label);
    text::push_decimal(&mut r, n);
    r
}

/// A line made of two texts.
fn joined(a: &str, b: &str) -> (r: String)
    ensures
        r@ == a@ + b@,
{
    let mut r = text::owned(a);
    text::push_text(&mut r, b);
    r
}

fn push_header(lines: &mut Vec<ConsoleLine>, source: &str, generated_at: &str, url: &str)
    ensures
        console_view(final(lines)@) == console_view(old(lines)@) + header_lines(source@, generated_at@, url@),
{
    let ghost before = console_view(lines@);
    emit(lines, Stream::Stdout, text::owned("Atlas Mapper iniciado."));
    emit(lines, Stream::Stdout, String::new());
    emit(lines, Stream::Stdout, text::owned("Origem analisada:"));
    emit(lines, Stream::Stdout, text::owned(source));
    emit(lines, Stream::Stdout, String::new());
    emit(lines, Stream::Stdout, text::owned("Data de geracao:"));
    emit(lines, Stream::Stdout, text::owned(generated_at));
    emit(lines, Stream::Stdout, String::new());
    emit(lines, Stream::Stdout, text::owned("Servidor local:"));
    emit(lines, Stream::Stdout, text::owned(url));
    assert(console_view(lines@) =~= before + header_lines(source@, generated_at@, url@));
}

fn push_browser(lines: &mut Vec<ConsoleLine>, open_browser: bool, browser_error: Option<&str>)
    ensures
        console_view(final(lines)@) == console_view(old(lines)@) + browser_lines(
            open_browser,
            scanner::opt_str(browser_error),
        ),
{
    let ghost before = console_view(lines@);
    if open_browser {
        emit(lines, Stream::Stdout, String::new());
        emit(lines, Stream::Stdout, text::owned("Abertura automatica do navegador: habilitada"));
        if let Some(e) = browser_error {
            emit(lines, Stream::Stderr, joined("Falha ao abrir o navegador automaticamente: ", e));
        }
    }
    assert(console_view(lines@) =~= before + browser_lines(open_browser, scanner::opt_str(browser_error)));
}

fn push_metrics(lines: &mut Vec<ConsoleLine>, report: &MappingReport)
    ensures
        console_view(final(lines)@) == console_view(old(lines)@) + metrics_lines(report.summary@),
{
    let ghost before = console_view(lines@);
    let summary = &report.summary;
    emit(lines, Stream::Stdout, String::new());
    emit(lines, Stream::Stdout, text::owned("Metricas iniciais:"));
    emit(lines, Stream::Stdout, numbered("Diretorios: ", summary.total_directories));
    emit(lines, Stream::Stdout, numbered("Arquivos: ", summary.total_files));
    let ghost totals = console_view(lines@);
    let entries = summary.by_extension.entries();
    let ghost counts = summary@.by_extension;
    if entries.len() == 0 {
        emit(lines, Stream::Stdout, text::owned("Extensoes: nenhuma encontrada"));
    } else {
        emit(lines, Stream::Stdout, text::owned("Extensoes:"));
        let ghost titled = console_view(lines@);
        let mut i: usize = 0;
        while i < entries.len()
            invariant
                i <= entries.len(),
                counts == crate::metrics::entries_view(entries@),
                console_view(lines@) == titled + counts.take(i as int).map_values(
                    |e: (Seq<char>, u64)| extension_line(e),
                ),
            decreases entries.len() - i,
        {
            let (key, count) = &entries[i];
            let mut line = joined("  ", key.as_str());
            text::push_text(&mut line, ": ");
            text::push_decimal(&mut line, *count);
            assert(counts[i as int] == (key@, *count));
            assert(line@ == extension_line(counts[i as int]).1);
            emit(lines, Stream::Stdout, line);
            i = i + 1;
            assert(counts.take(i as int).map_values(|e: (Seq<char>, u64)| extension_line(e)) =~= counts.take(
                i - 1,
            ).map_values(|e: (Seq<char>, u64)| extension_line(e)).push(extension_line(counts[i - 1])));
        }
        assert(counts.take(counts.len() as int) =~= counts);
    }
    assert(console_view(lines@) =~= before + metrics_lines(report.summary@));
}

fn push_warnings(lines: &mut Vec<ConsoleLine>, report: &MappingReport)
    ensures
        console_view(final(lines)@) == console_view(old(lines)@) + warning_section(
            report.summary@,
            warning::warnings_view(report.warnings@),
        ),
{
    let ghost before = console_view(lines@);
    let ghost ws = warning::warnings_view(report.warnings@);
    let summary = &report.summary;
    if summary.warning_count > 0 {
        emit(lines, Stream::Stdout, String::new());
        emit(lines, Stream::Stdout, numbered("Avisos de leitura: ", summary.warning_count));
        emit(lines, Stream::Stdout, numbered("Itens ignorados: ", summary.ignored_items));
        let ghost counted = console_view(lines@);
        let warnings = &report.warnings;
        let mut i: usize = 0;
        while i < warnings.len()
            invariant
                i <= warnings.len(),
                ws == warning::warnings_view(warnings@),
                console_view(lines@) == counted + ws.take(i as int).map_values(
                    |w: WarningView| warning_console_line(w),
                ),
            decreases warnings.len() - i,
        {
            let w = &warnings[i];
            let mut line = joined("[aviso:", w.kind.as_str());
            text::push_text(&mut line, "] ");
            text::push_text(&mut line, w.path.as_str());
            text::push_text(&mut line, " -> ");
            text::push_text(&mut line, w.message.as_str());
            assert(line@ == warning_console_line(ws[i as int]).1);
            emit(lines, Stream::Stderr, line);
            i = i + 1;
            assert(ws.take(i as int).map_values(|w: WarningView| warning_console_line(w)) =~= ws.take(
                i - 1,
            ).map_values(|w: WarningView| warning_console_line(w)).push(warning_console_line(ws[i - 1])));
        }
        assert(ws.take(ws.len() as int) =~= ws);
    }
    assert(console_view(lines@) =~= before + warning_section(report.summary@, ws));
}

fn push_routes(lines: &mut Vec<ConsoleLine>, url: &str)
    ensures
        console_view(final(lines)@) == console_view(old(lines)@) + route_lines(url@),
{
    let ghost before = console_view(lines@);
    emit(lines, Stream::Stdout, String::new());
    emit(lines, Stream::Stdout, text::owned("Rotas disponiveis:"));
    emit(lines, Stream::Stdout, joined(url, "/"));
    emit(lines, Stream::Stdout, joined(url, "/api/tree"));
    emit(lines, Stream::Stdout, joined(url, "/api/summary"));
    emit(lines, Stream::Stdout, joined(url, "/download/html"));
    emit(lines, Stream::Stdout, joined(url, "/download/json"));
    emit(lines, Stream::Stdout, joined(url, "/download/markdown"));
    assert(console_view(lines@) =~= before + route_lines(url@));
}

/// The lines that the `serve` command prints once its session has started,
/// in order, each with the stream it goes to. `browser_error` is why the
/// browser could not be opened, when it was to be opened and could not.
pub fn serve_console_lines(
    report: &MappingReport,
    local_url: &str,
    open_browser: bool,
    browser_error: Option<&str>,
) -> (r: Vec<ConsoleLine>)
    ensures
        console_view(r@) == serve_console(
            report.source@,
            report.generated_at@,
            local_url@,
            open_browser,
            scanner::opt_str(browser_error),
            report.summary@,
            warning::warnings_view(report.warnings@),
        ),
{
    let mut lines: Vec<ConsoleLine> = Vec::new();
    assert(console_view(lines@) =~= Seq::<LineView>::empty());
    push_header(&mut lines, report.source.as_str(), report.generated_at.as_str(), local_url);
    push_browser(&mut lines, open_browser, browser_error);
    push_metrics(&mut lines, report);
    push_warnings(&mut lines, report);
    push_routes(&mut lines, local_url);
    assert(console_view(lines@) =~= serve_console(
        report.source@,
        report.generated_at@,
        local_url@,
        open_browser,
        scanner::opt_str(browser_error),
        report.summary@,
        warning::warnings_view(report.warnings@),
    ));
    lines
}

}
