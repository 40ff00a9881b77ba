use atlas::cli::{validate_input_directory, PathProbe};
use atlas::metrics::{ExtensionCounts, RelatorioMetricas};
use atlas::node::FileNode;
use atlas::render::html::{escape_html, json_for_script_tag, render_extensions, render_index, render_standalone};
use atlas::render::markdown::{imprimir_markdown_arquivo, render_markdown, write_markdown_tree};
use atlas::report::{display_path, MappingReport};
use atlas::scanner::{file_extension, node_name, scan_directory, sort_nodes, ScanEntry};
use atlas::server::{local_url_for, render_server_index};
use atlas::session::{build_report, SessionConfig, SessionStarted};
use atlas::text::{decimal_text, replace_text, text_less};
use atlas::console::{serve_console_lines, Stream};
use atlas::tui::{
    centered_area_for_size, char_to_byte_index, form_cursor_position, input_cursor_position, splash_needs_new_image, insert_char_at, parse_port,
    recent_status_lines, remove_char_at, trim_text, warning_panel_lines, Area, FormField, FormOutcome,
    FormState, Key, Screen, TuiAction, TuiState, WorkerMessage,
};
use atlas::warning::ScanWarning;

fn file(path: &str, name: &str, ext: Option<&str>) -> ScanEntry {
    ScanEntry::File {
        path: path.to_string(),
        file_name: Some(name.to_string()),
        extension: ext.map(str::to_string),
    }
}

fn dir(path: &str, name: &str, entries: Vec<ScanEntry>) -> ScanEntry {
    ScanEntry::Directory { path: path.to_string(), file_name: Some(name.to_string()), entries }
}

fn names(nodes: &[FileNode]) -> Vec<String> {
    nodes.iter().map(|n| n.name().clone()).collect()
}

fn sample_root() -> ScanEntry {
    dir(
        "/acervo",
        "acervo",
        vec![
            file("/acervo/b.PDF", "b.PDF", Some("PDF")),
            dir(
                "/acervo/docs",
                "docs",
                vec![
                    file("/acervo/docs/a.txt", "a.txt", Some("txt")),
                    ScanEntry::EntryFailed { path: "/acervo/docs".to_string(), message: "bad entry".to_string() },
                ],
            ),
            file("/acervo/README", "README", None),
            ScanEntry::DirectoryUnreadable { path: "/acervo/secret".to_string(), message: "denied".to_string() },
            ScanEntry::MetadataFailed { path: "/acervo/ghost".to_string(), message: "gone".to_string() },
            file("/acervo/a.pdf", "a.pdf", Some("pdf")),
        ],
    )
}

fn report_with(summary: RelatorioMetricas, tree: FileNode) -> MappingReport {
    MappingReport::with_warnings("D:/Acervo", "2024-01-02T03:04:05+00:00".to_string(), summary, tree, vec![])
}

#[test]
fn decimal_text_writes_numbers() {
    assert_eq!(decimal_text(0), "0");
    assert_eq!(decimal_text(8787), "8787");
    assert_eq!(decimal_text(u64::MAX), "18446744073709551615");
}

#[test]
fn text_order_is_by_character() {
    assert!(text_less("a", "b"));
    assert!(text_less("a", "ab"));
    assert!(!text_less("b", "a"));
    assert!(!text_less("a", "a"));
    assert!(text_less("Z", "a"));
}

#[test]
fn replace_text_replaces_every_occurrence() {
    assert_eq!(replace_text("aXbXXc", "X", "--"), "a--b----c");
    assert_eq!(replace_text("aaa", "aa", "b"), "ba");
}

#[test]
fn metrics_count_files_per_extension() {
    let mut m = RelatorioMetricas::default();
    m.register_file(Some(".pdf"));
    m.register_file(None);
    m.register_file(Some(".pdf"));
    m.register_file(Some(".doc"));
    m.register_directory();
    assert_eq!(m.total_files, 4);
    assert_eq!(m.total_directories, 1);
    assert_eq!(m.by_extension.get(".pdf"), Some(2));
    assert_eq!(m.by_extension.get(".doc"), Some(1));
    assert_eq!(m.by_extension.get("[sem extensao]"), Some(1));
    assert_eq!(m.by_extension.get(".txt"), None);
    let keys: Vec<&str> = m.by_extension.entries().iter().map(|(k, _)| k.as_str()).collect();
    assert_eq!(keys, vec![".doc", ".pdf", "[sem extensao]"]);
    let sum: u64 = m.by_extension.entries().iter().map(|(_, c)| *c).sum();
    assert_eq!(sum, m.total_files);
}

#[test]
fn warnings_count_ignored_items() {
    let mut m = RelatorioMetricas::default();
    m.register_warning();
    m.register_warning();
    assert_eq!(m.warning_count, 2);
    assert_eq!(m.ignored_items, 2);
}

#[test]
fn extension_counts_accept_only_sorted_entries() {
    assert!(ExtensionCounts::from_sorted(vec![(".a".to_string(), 1), (".b".to_string(), 2)]).is_some());
    assert!(ExtensionCounts::from_sorted(vec![(".b".to_string(), 1), (".a".to_string(), 2)]).is_none());
    assert!(ExtensionCounts::from_sorted(vec![(".a".to_string(), 1), (".a".to_string(), 2)]).is_none());
}

#[test]
fn node_names_fall_back_to_path() {
    assert_eq!(node_name(Some("a.txt"), "/x/a.txt"), "a.txt");
    assert_eq!(node_name(Some(""), "/"), "/");
    assert_eq!(node_name(None, ".."), "..");
}

#[test]
fn extensions_are_dotted_and_lower_case() {
    assert_eq!(file_extension(Some("PDF")), Some(".pdf".to_string()));
    assert_eq!(file_extension(Some("TxT")), Some(".txt".to_string()));
    assert_eq!(file_extension(Some("")), Some(".".to_string()));
    assert_eq!(file_extension(None), None);
}

#[test]
fn sort_nodes_lists_directories_first_and_keeps_ties() {
    let sorted = sort_nodes(vec![
        FileNode::file("b".to_string(), None),
        FileNode::directory("z".to_string(), vec![]),
        FileNode::file("a".to_string(), Some(".x".to_string())),
        FileNode::file("a".to_string(), Some(".y".to_string())),
        FileNode::directory("c".to_string(), vec![]),
    ]);
    assert_eq!(names(&sorted), vec!["c", "z", "a", "a", "b"]);
    match (&sorted[2], &sorted[3]) {
        (FileNode::File { extension: Some(x), .. }, FileNode::File { extension: Some(y), .. }) => {
            assert_eq!(x, ".x");
            assert_eq!(y, ".y");
        }
        _ => panic!("expected two files"),
    }
}

#[test]
fn scan_builds_sorted_tree_metrics_and_warnings() {
    let result = scan_directory(&sample_root()).expect("root is readable");
    let FileNode::Directory { name, children } = &result.tree else { panic!("root is a directory") };
    assert_eq!(name, "acervo");
    assert_eq!(names(children), vec!["docs", "README", "a.pdf", "b.PDF"]);
    let FileNode::Directory { children: docs, .. } = &children[0] else { panic!("docs is a directory") };
    assert_eq!(names(docs), vec!["a.txt"]);
    match &children[3] {
        FileNode::File { extension, .. } => assert_eq!(extension.as_deref(), Some(".pdf")),
        _ => panic!("b.PDF is a file"),
    }

    assert_eq!(result.metrics.total_files, 4);
    assert_eq!(result.metrics.total_directories, 3);
    assert_eq!(result.metrics.warning_count, 3);
    assert_eq!(result.metrics.ignored_items, 3);
    assert_eq!(result.metrics.by_extension.get(".pdf"), Some(2));
    assert_eq!(result.metrics.by_extension.get(".txt"), Some(1));
    assert_eq!(result.metrics.by_extension.get("[sem extensao]"), Some(1));

    let kinds: Vec<&str> = result.warnings.iter().map(|w| w.kind.as_str()).collect();
    assert_eq!(kinds, vec!["read_entry", "read_directory", "read_metadata"]);
    assert_eq!(result.warnings[1].path, "/acervo/secret");
    assert_eq!(result.warnings[1].message, "denied");
    assert_eq!(result.warnings.len() as u64, result.metrics.warning_count);
}

#[test]
fn scan_fails_on_unreadable_root() {
    let meta = ScanEntry::MetadataFailed { path: "/x".to_string(), message: "no such file".to_string() };
    assert_eq!(scan_directory(&meta).err(), Some("no such file".to_string()));
    let listing = ScanEntry::DirectoryUnreadable { path: "/x".to_string(), message: "denied".to_string() };
    assert_eq!(scan_directory(&listing).err(), Some("denied".to_string()));
    let entry = ScanEntry::EntryFailed { path: "/x".to_string(), message: "bad".to_string() };
    assert_eq!(scan_directory(&entry).err(), Some("falha ao mapear o diretorio raiz".to_string()));
}

#[test]
fn scan_of_a_single_file_gives_a_file_node() {
    let result = scan_directory(&file("/a.TXT", "a.TXT", Some("TXT"))).expect("readable");
    assert_eq!(result.tree, FileNode::file("a.TXT".to_string(), Some(".txt".to_string())));
    assert_eq!(result.metrics.total_files, 1);
    assert_eq!(result.metrics.total_directories, 0);
}

#[test]
fn display_path_strips_only_the_verbatim_prefix() {
    assert_eq!(display_path(r"\\?\C:\Acervo"), r"C:\Acervo");
    assert_eq!(display_path("C:/Acervo"), "C:/Acervo");
    assert_eq!(display_path(r"\\?\\\?\x"), r"\\?\x");
}

#[test]
fn report_from_scan_prefers_canonical_path() {
    let tree = FileNode::directory("Acervo".to_string(), vec![]);
    let r = MappingReport::from_scan("rel", Some(r"\\?\C:\abs"), "t".to_string(), tree, RelatorioMetricas::default(), vec![]);
    assert_eq!(r.source, r"C:\abs");
    let tree = FileNode::directory("Acervo".to_string(), vec![]);
    let r = MappingReport::from_scan("rel", None, "t".to_string(), tree, RelatorioMetricas::default(), vec![]);
    assert_eq!(r.source, "rel");
    assert_eq!(r.generated_at, "t");
}

#[test]
fn validation_messages_name_the_problem() {
    let missing = validate_input_directory("X", PathProbe { exists: false, is_dir: false });
    assert_eq!(missing, Err("o caminho informado nao existe: X".to_string()));
    let not_dir = validate_input_directory("f.txt", PathProbe { exists: true, is_dir: false });
    assert_eq!(not_dir, Err("o caminho informado nao e um diretorio: f.txt".to_string()));
    assert_eq!(validate_input_directory("d", PathProbe { exists: true, is_dir: true }), Ok(()));
}

#[test]
fn build_report_reports_each_failure() {
    let config = SessionConfig { input: "/acervo".to_string(), port: 8787, open_browser: false };
    let ok = PathProbe { exists: true, is_dir: true };
    let missing = build_report(&config, PathProbe { exists: false, is_dir: false }, &sample_root(), None, "t".to_string());
    assert_eq!(missing.err(), Some("o caminho informado nao existe: /acervo".to_string()));
    let root = ScanEntry::DirectoryUnreadable { path: "/acervo".to_string(), message: "denied".to_string() };
    let failed = build_report(&config, ok, &root, None, "t".to_string());
    assert_eq!(failed.err(), Some("falha ao mapear o diretorio '/acervo': denied".to_string()));
    let report = build_report(&config, ok, &sample_root(), Some("/real/acervo"), "t".to_string()).expect("readable");
    assert_eq!(report.source, "/real/acervo");
    assert_eq!(report.generated_at, "t");
    assert_eq!(report.summary.total_files, 4);
    assert_eq!(report.warnings.len(), 3);
}

#[test]
fn markdown_lists_tree_and_counts() {
    let mut summary = RelatorioMetricas::default();
    summary.register_directory();
    summary.register_file(Some(".pdf"));
    let tree = FileNode::directory(
        "Acervo".to_string(),
        vec![FileNode::file("a.pdf".to_string(), Some(".pdf".to_string()))],
    );
    let md = render_markdown(&report_with(summary, tree));
    let expected = "# Mapeamento do Diretorio: `D:/Acervo`\n\n## Arvore de Arquivos\n\n* **Acervo/**\n  * a.pdf\n\n---\n\n## Relatorio Estatistico Quantitativo\n\n- **Data de geracao:** 2024-01-02T03:04:05+00:00\n- **Total de Diretorios:** 1\n- **Total de Arquivos:** 1\n\n### Quantitativo por Extensao/Formato\n\n| Extensao / Formato | Quantidade de Arquivos |\n| :--- | ---: |\n| `.pdf` | 1 |\n";
    assert_eq!(md, expected);
}

#[test]
fn markdown_of_empty_summary_has_placeholder_row() {
    let md = render_markdown(&report_with(RelatorioMetricas::default(), FileNode::directory("A".to_string(), vec![])));
    assert!(md.ends_with("| `[sem extensao]` | 0 |\n"));
}

#[test]
fn markdown_tree_indents_by_level() {
    let tree = FileNode::directory(
        "a".to_string(),
        vec![FileNode::directory("b".to_string(), vec![FileNode::file("c".to_string(), None)])],
    );
    let mut out = String::new();
    write_markdown_tree(&tree, 1, &mut out);
    assert_eq!(out, "  * **a/**\n    * **b/**\n      * c\n");
    let mut proto = String::new();
    imprimir_markdown_arquivo(&tree, 0, &mut proto);
    assert_eq!(proto, "* \u{1F4C1} **a/**\n  * \u{1F4C1} **b/**\n    * \u{1F4C4} c\n");
}

#[test]
fn escape_html_replaces_markup_characters() {
    assert_eq!(escape_html("a<b>&\"c'"), "a&lt;b&gt;&amp;&quot;c&#39;");
    assert_eq!(escape_html("&amp;"), "&amp;amp;");
    let escaped = escape_html("<script>alert('x')</script>");
    assert!(!escaped.contains('<') && !escaped.contains('>') && !escaped.contains('\'') && !escaped.contains('"'));
}

#[test]
fn script_tag_json_cannot_close_the_element() {
    assert_eq!(json_for_script_tag("{\"n\":\"</script>\"}"), "{\"n\":\"<\\/script>\"}");
    let tricky = json_for_script_tag("<</script</script");
    assert!(!tricky.contains("</script"));
    assert_eq!(tricky, "<<\\/script<\\/script");
}

#[test]
fn html_page_embeds_escaped_metadata_and_counts() {
    let mut summary = RelatorioMetricas::default();
    summary.register_directory();
    summary.register_file(Some(".<x>"));
    let mut report = report_with(summary, FileNode::directory("A".to_string(), vec![]));
    report.source = "D:/<Acervo>".to_string();
    let html = render_index(&report, "{\"a\":\"</script\"}");
    assert!(html.contains("<code>D:/&lt;Acervo&gt;</code>"));
    assert!(html.contains("<span class=\"stat-value\">1</span>"));
    assert!(html.contains("<li><code>.&lt;x&gt;</code><span>1</span></li>"));
    assert!(html.contains("{\"a\":\"<\\/script\"}</script>"));
    assert!(html.starts_with("<!DOCTYPE html><html lang=\"pt-BR\"><head>"));
    assert!(html.ends_with("<script src=\"/assets/app.js\"></script></body></html>"));
    let standalone = render_standalone(&report, "{}", "body{}", "run()");
    assert!(standalone.contains("<style>body{}</style>"));
    assert!(standalone.contains("<script>run()</script>"));
    assert!(standalone.contains("Arquivo standalone"));
}

#[test]
fn extension_section_without_extensions() {
    let html = render_extensions(&ExtensionCounts::new());
    assert!(html.contains("Nenhuma extensao encontrada no acervo."));
}

#[test]
fn server_index_shows_source_and_totals() {
    let mut summary = RelatorioMetricas::default();
    summary.register_directory();
    summary.register_directory();
    let page = render_server_index(&report_with(summary, FileNode::directory("A".to_string(), vec![])));
    assert!(page.contains("<code>D:/Acervo</code>"));
    assert!(page.contains("<li>Total de diretorios: 2</li><li>Total de arquivos: 0</li>"));
    assert!(page.contains("body { font-family"));
    assert_eq!(local_url_for("127.0.0.1:8787"), "http://127.0.0.1:8787");
}

#[test]
fn port_parsing_follows_u16_from_str() {
    assert_eq!(parse_port("8787"), Some(8787));
    assert_eq!(parse_port("+80"), Some(80));
    assert_eq!(parse_port("0"), Some(0));
    assert_eq!(parse_port("65535"), Some(65535));
    assert_eq!(parse_port("65536"), None);
    assert_eq!(parse_port("999999"), None);
    assert_eq!(parse_port(""), None);
    assert_eq!(parse_port("+"), None);
    assert_eq!(parse_port("-1"), None);
    assert_eq!(parse_port("80a"), None);
    for n in [1u16, 22, 443, 8080, 65535] {
        assert_eq!(parse_port(&decimal_text(n as u64)), Some(n));
    }
}

#[test]
fn trim_removes_unicode_white_space() {
    assert_eq!(trim_text("  /a b \t\n"), "/a b");
    assert_eq!(trim_text("\u{3000}x\u{a0}"), "x");
    assert_eq!(trim_text("   "), "");
}

#[test]
fn char_positions_map_to_bytes() {
    assert_eq!(char_to_byte_index("aé€😀", 0), 0);
    assert_eq!(char_to_byte_index("aé€😀", 2), 3);
    assert_eq!(char_to_byte_index("aé€😀", 3), 6);
    assert_eq!(char_to_byte_index("aé€😀", 9), 10);
}

#[test]
fn insert_then_remove_restores_text() {
    let mut s = "aé€".to_string();
    insert_char_at(&mut s, 1, 'x');
    assert_eq!(s, "axé€");
    remove_char_at(&mut s, 1);
    assert_eq!(s, "aé€");
    insert_char_at(&mut s, 10, '!');
    assert_eq!(s, "aé€!");
    remove_char_at(&mut s, 10);
    assert_eq!(s, "aé€!");
}

#[test]
fn focus_moves_round() {
    for f in [FormField::Input, FormField::Port, FormField::Open, FormField::Start] {
        assert_eq!(f.next().previous(), f);
        assert_eq!(f.next().next().next().next(), f);
    }
    assert_eq!(FormField::Start.next(), FormField::Input);
}

fn form() -> FormState {
    FormState {
        field: FormField::Input,
        input: "ab".to_string(),
        input_cursor: 2,
        port: "8787".to_string(),
        port_cursor: 4,
        open_browser: true,
    }
}

#[test]
fn form_keys_edit_the_focused_field() {
    let mut f = form();
    assert_eq!(f.handle_form_key(Key::Left), FormOutcome::Stay);
    assert_eq!(f.input_cursor, 1);
    f.handle_form_key(Key::Char('X'));
    assert_eq!(f.input, "aXb");
    assert_eq!(f.input_cursor, 2);
    f.handle_form_key(Key::Backspace);
    assert_eq!(f.input, "ab");
    f.handle_form_key(Key::Right);
    f.handle_form_key(Key::Right);
    assert_eq!(f.input_cursor, 2);
    f.handle_form_key(Key::Home);
    f.handle_form_key(Key::Delete);
    assert_eq!(f.input, "b");
    f.handle_form_key(Key::Tab);
    assert_eq!(f.field, FormField::Port);
    f.handle_form_key(Key::Char('x'));
    assert_eq!(f.port, "8787");
    f.handle_form_key(Key::Char('1'));
    assert_eq!(f.port, "87871");
    f.handle_form_key(Key::Down);
    assert_eq!(f.field, FormField::Open);
    f.handle_form_key(Key::Char(' '));
    assert!(!f.open_browser);
    f.handle_form_key(Key::Enter);
    assert!(f.open_browser);
    f.handle_form_key(Key::Tab);
    assert_eq!(f.handle_form_key(Key::Enter), FormOutcome::Start);
    assert_eq!(f.handle_form_key(Key::Esc), FormOutcome::Exit);
}

#[test]
fn screens_follow_keys_and_worker_messages() {
    let mut t = TuiState::new("  /acervo  ".to_string());
    assert_eq!(t.screen, Screen::Splash);
    assert_eq!(t.form.input_cursor, 11);
    assert_eq!(t.status_lines, vec!["Aguardando inicio do mapeamento...".to_string()]);
    assert!(matches!(t.handle_key(Key::Enter), TuiAction::Nothing));
    assert_eq!(t.screen, Screen::Form);
    t.form.field = FormField::Start;
    match t.handle_key(Key::Enter) {
        TuiAction::StartSession(config) => {
            assert_eq!(config.input, "/acervo");
            assert_eq!(config.port, 8787);
            assert!(config.open_browser);
        }
        _ => panic!("expected a session to start"),
    }
    assert_eq!(t.screen, Screen::Loading);
    assert_eq!(t.status_lines, vec!["Iniciando fluxo do Atlas...".to_string()]);
    assert!(!t.receive(WorkerMessage::Status("passo".to_string())));
    assert_eq!(t.status_lines.len(), 2);
    let report = report_with(RelatorioMetricas::default(), FileNode::directory("A".to_string(), vec![]));
    let session = SessionStarted { report, local_url: "http://x".to_string(), browser_error: None };
    assert!(t.receive(WorkerMessage::Finished(Ok(session))));
    assert_eq!(t.screen, Screen::Result);
    match t.handle_key(Key::Char('o')) {
        TuiAction::OpenBrowser(url) => assert_eq!(url, "http://x"),
        _ => panic!("expected the browser to open"),
    }
    t.browser_failed("no browser");
    assert_eq!(t.screen, Screen::Error);
    assert_eq!(t.error_message.as_deref(), Some("falha ao abrir o navegador automaticamente: no browser"));
    t.handle_key(Key::Enter);
    assert_eq!(t.screen, Screen::Form);
    assert_eq!(t.error_message, None);
    t.form.port = "70000".to_string();
    t.form.port_cursor = 5;
    t.handle_key(Key::Enter);
    assert_eq!(t.screen, Screen::Error);
    assert_eq!(t.error_message.as_deref(), Some("porta invalida. informe um numero entre 1 e 65535"));
    t.handle_key(Key::Char('q'));
    assert!(t.should_exit);
}

#[test]
fn result_screen_n_resets_the_session() {
    let mut t = TuiState::new("/a".to_string());
    t.screen = Screen::Result;
    t.form.input_cursor = 0;
    let report = report_with(RelatorioMetricas::default(), FileNode::directory("A".to_string(), vec![]));
    t.session = Some(SessionStarted { report, local_url: "u".to_string(), browser_error: None });
    t.handle_key(Key::Char('n'));
    assert_eq!(t.screen, Screen::Form);
    assert!(t.session.is_none());
    assert_eq!(t.form.input_cursor, 2);
    assert_eq!(t.form.port_cursor, 4);
}

#[test]
fn spinner_wraps_after_eight_frames() {
    let mut t = TuiState::new(String::new());
    for _ in 0..8 {
        t.advance_spinner();
    }
    assert_eq!(t.spinner_index, 0);
    t.advance_spinner();
    assert_eq!(atlas::tui::loading_line(t.spinner_index), "\\ Executando mapeamento e subida do live server...");
}

#[test]
fn loading_screen_shows_last_twelve_lines() {
    let lines: Vec<String> = (0..15).map(|i| format!("l{i}")).collect();
    let recent = recent_status_lines(&lines);
    assert_eq!(recent.len(), 12);
    assert_eq!(recent[0], "l3");
    assert_eq!(recent[11], "l14");
    assert_eq!(recent_status_lines(&lines[..2].to_vec()), vec!["l0".to_string(), "l1".to_string()]);
}

#[test]
fn warning_panel_lists_first_eight_and_browser_failure() {
    let ws: Vec<ScanWarning> = (0..10).map(|i| ScanWarning::new(format!("p{i}"), "read_entry", "m".to_string())).collect();
    let lines = warning_panel_lines(&ws, Some("x"));
    assert_eq!(lines.len(), 9);
    assert_eq!(lines[0], "read_entry | p0 | m");
    assert_eq!(lines[8], "Falha ao abrir navegador: x");
    assert_eq!(warning_panel_lines(&vec![], None), vec!["Nenhum aviso registrado durante o mapeamento.".to_string()]);
}

#[test]
fn areas_center_and_clamp() {
    let area = Area { x: 10, y: 5, width: 20, height: 10 };
    assert_eq!(centered_area_for_size(area, 4, 2), Area { x: 18, y: 9, width: 4, height: 2 });
    assert_eq!(centered_area_for_size(area, 100, 0), Area { x: 10, y: 9, width: 20, height: 1 });
    assert_eq!(input_cursor_position(area, 3), (14, 6));
    assert_eq!(input_cursor_position(area, 100), (28, 6));
    assert_eq!(input_cursor_position(area, 65536 + 2), (13, 6));
}

fn unescape(t: &str) -> String {
    t.replace("&lt;", "<").replace("&gt;", ">").replace("&quot;", "\"").replace("&#39;", "'").replace("&amp;", "&")
}

#[test]
fn unescaping_gives_back_what_was_escaped() {
    for s in ["a<b>&\"c'", "&amp;", "&lt;&&", "plain text", "", "<<>>''\"\"&&"] {
        let escaped = escape_html(s);
        assert_eq!(unescape(&escaped), s);
        for (i, _) in escaped.match_indices('&') {
            let rest = &escaped[i..];
            assert!(["&amp;", "&lt;", "&gt;", "&quot;", "&#39;"].iter().any(|e| rest.starts_with(e)));
        }
    }
    assert_eq!(escape_html("Relatorio 2024 (final)"), "Relatorio 2024 (final)");
}

fn files_with(node: &FileNode, key: &str) -> u64 {
    match node {
        FileNode::File { extension, .. } => {
            if extension.as_deref().unwrap_or("[sem extensao]") == key { 1 } else { 0 }
        }
        FileNode::Directory { children, .. } => children.iter().map(|c| files_with(c, key)).sum(),
    }
}

#[test]
fn each_extension_count_matches_the_tree() {
    let result = scan_directory(&sample_root()).expect("root is readable");
    for (key, count) in result.metrics.by_extension.entries() {
        assert_eq!(*count, files_with(&result.tree, key));
    }
    assert_eq!(files_with(&result.tree, ".pdf"), 2);
    assert_eq!(files_with(&result.tree, ".doc"), 0);
    assert_eq!(result.metrics.by_extension.get(".doc"), None);
}

#[test]
fn serve_console_lists_report_and_routes() {
    let mut summary = RelatorioMetricas::default();
    summary.register_directory();
    summary.register_file(Some(".pdf"));
    summary.register_file(None);
    summary.register_warning();
    let warnings = vec![ScanWarning::new("/a/x".to_string(), "read_entry", "bad".to_string())];
    let tree = FileNode::directory("a".to_string(), vec![]);
    let report = MappingReport::with_warnings("/a", "t0".to_string(), summary, tree, warnings);
    let lines = serve_console_lines(&report, "http://127.0.0.1:8787", true, Some("no browser"));
    let printed: Vec<(Stream, &str)> = lines.iter().map(|l| (l.stream, l.text.as_str())).collect();
    let o = Stream::Stdout;
    let e = Stream::Stderr;
    assert_eq!(
        printed,
        vec![
            (o, "Atlas Mapper iniciado."),
            (o, ""),
            (o, "Origem analisada:"),
            (o, "/a"),
            (o, ""),
            (o, "Data de geracao:"),
            (o, "t0"),
            (o, ""),
            (o, "Servidor local:"),
            (o, "http://127.0.0.1:8787"),
            (o, ""),
            (o, "Abertura automatica do navegador: habilitada"),
            (e, "Falha ao abrir o navegador automaticamente: no browser"),
            (o, ""),
            (o, "Metricas iniciais:"),
            (o, "Diretorios: 1"),
            (o, "Arquivos: 2"),
            (o, "Extensoes:"),
            (o, "  .pdf: 1"),
            (o, "  [sem extensao]: 1"),
            (o, ""),
            (o, "Avisos de leitura: 1"),
            (o, "Itens ignorados: 1"),
            (e, "[aviso:read_entry] /a/x -> bad"),
            (o, ""),
            (o, "Rotas disponiveis:"),
            (o, "http://127.0.0.1:8787/"),
            (o, "http://127.0.0.1:8787/api/tree"),
            (o, "http://127.0.0.1:8787/api/summary"),
            (o, "http://127.0.0.1:8787/download/html"),
            (o, "http://127.0.0.1:8787/download/json"),
            (o, "http://127.0.0.1:8787/download/markdown"),
        ]
    );
}

#[test]
fn serve_console_without_extensions_or_browser() {
    let report = report_with(RelatorioMetricas::default(), FileNode::directory("a".to_string(), vec![]));
    let lines = serve_console_lines(&report, "http://x", false, Some("ignored"));
    let texts: Vec<&str> = lines.iter().map(|l| l.text.as_str()).collect();
    assert_eq!(texts.len(), 10 + 5 + 8);
    assert_eq!(texts[10..15], ["", "Metricas iniciais:", "Diretorios: 0", "Arquivos: 0", "Extensoes: nenhuma encontrada"]);
    assert!(lines.iter().all(|l| l.stream == Stream::Stdout));
}

#[test]
fn form_cursor_follows_the_focused_box() {
    let input_area = Area { x: 0, y: 3, width: 30, height: 5 };
    let port_area = Area { x: 0, y: 8, width: 30, height: 5 };
    let mut f = form();
    assert_eq!(form_cursor_position(&f, input_area, port_area), Some((3, 4)));
    f.field = FormField::Port;
    assert_eq!(form_cursor_position(&f, input_area, port_area), Some((5, 9)));
    f.field = FormField::Open;
    assert_eq!(form_cursor_position(&f, input_area, port_area), None);
    f.field = FormField::Start;
    assert_eq!(form_cursor_position(&f, input_area, port_area), None);
}

#[test]
fn splash_image_is_prepared_once_per_size() {
    assert!(splash_needs_new_image(40, 12, None));
    assert!(!splash_needs_new_image(40, 12, Some((40, 12))));
    assert!(splash_needs_new_image(41, 12, Some((40, 12))));
    assert!(splash_needs_new_image(40, 13, Some((40, 12))));
    assert!(!splash_needs_new_image(0, 12, None));
    assert!(!splash_needs_new_image(40, 0, Some((40, 12))));
}

#[test]
fn script_safe_json_reads_the_same_value() {
    let mut object = serde_json::Map::new();
    object.insert("name".to_string(), serde_json::Value::String("a</script><b>/c".to_string()));
    object.insert("children".to_string(), serde_json::Value::Array(vec![serde_json::Value::from(3)]));
    let value = serde_json::Value::Object(object);
    let written = serde_json::to_string(&value).expect("serializable");
    let safe = json_for_script_tag(&written);
    assert!(!safe.contains("</script"));
    assert_ne!(safe, written);
    let read: serde_json::Value = serde_json::from_str(&safe).expect("still JSON");
    assert_eq!(read, value);
}
