//! The start page served by the local server, and the server's address.
use vstd::prelude::*;
use crate::text;
use crate::report::MappingReport;
use std::sync::Arc;

verus! {

/// What the server's routes share: the report being served.
#[derive(Clone)]
pub struct AppState {
    pub report: Arc<MappingReport>,
}

/// A fixed piece of the server's start page.
pub const INDEX_START: &'static str = "<!DOCTYPE html><html lang=\"pt-BR\"><head><meta charset=\"utf-8\"><meta name=\"viewport\" content=\"width=device-width, initial-scale=1\"><title>Atlas Mapper</title><style>body { font-family: Segoe UI, Arial, sans-serif; margin: 0; background: #0f172a; color: #e2e8f0; }main { max-width: 960px; margin: 0 auto; padding: 32px 20px 48px; }.panel { background: #111827; border: 1px solid #334155; border-radius: 16px; padding: 20px; margin-top: 20px; }h1, h2 { margin-top: 0; }code { color: #93c5fd; }ul { padding-left: 20px; }a { color: #93c5fd; }</style></head><body><main><h1>Atlas Mapper iniciado.</h1><div class=\"panel\"><p><strong>Origem analisada:</strong><br><code>";

/// A fixed piece of the server's start page.
pub const INDEX_AFTER_SOURCE: &'static str = "</code></p><p><strong>Gerado em:</strong><br><code>";

/// A fixed piece of the server's start page.
pub const INDEX_AFTER_GENERATED: &'static str = "</code></p></div><div class=\"panel\"><h2>Resumo inicial</h2><ul><li>Total de diretorios: ";

/// A fixed piece of the server's start page.
pub const INDEX_AFTER_DIRECTORIES: &'static str = "</li><li>Total de arquivos: ";

/// A fixed piece of the server's start page.
pub const INDEX_END: &'static str = "</li></ul></div><div class=\"panel\"><h2>Rotas disponiveis</h2><ul><li><a href=\"/api/tree\">/api/tree</a></li><li><a href=\"/api/summary\">/api/summary</a></li></ul></div></main></body></html>";

/// The start page: origin, generation time, totals and the API routes.
/// The origin and time are written as they are.
pub open spec fn index_page(r: MappingReport) -> Seq<char> {
    INDEX_START@ + r.source@
        + INDEX_AFTER_SOURCE@ + r.generated_at@
        + INDEX_AFTER_GENERATED@ + text::decimal_digits(r.summary.total_directories as nat)
        + INDEX_AFTER_DIRECTORIES@ + text::decimal_digits(r.summary.total_files as nat)
        + INDEX_END@
}

/// Renders the server's start page for a report.
pub fn render_server_index(report: &MappingReport) -> (r: String)
    ensures
        r@ == index_page(*report),
{
    let mut page = text::owned(INDEX_START);
    text::push_text(&mut page, report.source.as_str());
    text::push_text(&mut page, INDEX_AFTER_SOURCE);
    text::push_text(&mut page, report.generated_at.as_str());
    text::push_text(&mut page, INDEX_AFTER_GENERATED);
    text::push_decimal(&mut page, report.summary.total_directories);
    text::push_text(&mut page, INDEX_AFTER_DIRECTORIES);
    text::push_decimal(&mut page, report.summary.total_files);
    text::push_text(&mut page, INDEX_END);
    assert(page@ =~= index_page(*report));
    page
}

/// The URL of the server listening at `address` (as `host:port`).
pub fn local_url_for(address: &str) -> (r: String)
    ensures
        r@ == "http://"@ + address@,
{
    let mut url = text::owned("http://");
    text::push_text(&mut url, address);
    url
}

}
