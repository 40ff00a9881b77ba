use std::io;
use std::path::Path;

use atlas::cli::{validate_input_directory, PathProbe};
use atlas::metrics::RelatorioMetricas;
use atlas::node::FileNode;
use atlas::render::html::{render_index, render_standalone};
use atlas::render::markdown::render_markdown;
use atlas::report::MappingReport;
use atlas::scanner::{compare_nodes, register_warning};

fn now() -> String {
    chrono::Local::now().to_rfc3339_opts(chrono::SecondsFormat::Secs, false)
}

fn probe(path: &Path) -> PathProbe {
    PathProbe { exists: path.exists(), is_dir: path.is_dir() }
}

fn empty_tree_json() -> &'static str {
    "{\"Directory\":{\"name\":\"Acervo\",\"children\":[]}}"
}

fn node_name(node: &FileNode) -> &str {
    match node {
        FileNode::File { name, .. } | FileNode::Directory { name, .. } => name,
    }
}

#[test]
fn rejects_missing_directory() {
    let invalid = Path::new("__atlas_missing_directory__");
    let result = validate_input_directory(&invalid.display().to_string(), probe(invalid));

    assert!(result.is_err());
}

#[test]
fn strips_windows_verbatim_prefix_from_source() {
    let report = MappingReport::new(
        r"\\?\C:\Acervo",
        now(),
        RelatorioMetricas::default(),
        FileNode::directory("Acervo".to_string(), vec![]),
    );

    assert_eq!(report.source, r"C:\Acervo");
}

#[test]
fn renders_tree_bootstrap_markup() {
    let report = MappingReport::new(
        "D:/Acervo",
        now(),
        RelatorioMetricas::default(),
        FileNode::directory("Acervo".to_string(), vec![]),
    );

    let html = render_index(&report, empty_tree_json());

    assert!(html.contains("id=\"treeRoot\""));
    assert!(html.contains("id=\"tree-data\""));
    assert!(html.contains("Expandir tudo"));
    assert!(html.contains("/download/json"));
}

#[test]
fn renders_standalone_without_external_dependencies() {
    let report = MappingReport::new(
        "D:/Acervo",
        now(),
        RelatorioMetricas::default(),
        FileNode::directory("Acervo".to_string(), vec![]),
    );

    let html = render_standalone(&report, empty_tree_json(), "", "");

    assert!(html.contains("<style>"));
    assert!(html.contains("<script>"));
    assert!(!html.contains("/assets/style.css"));
    assert!(!html.contains("/assets/app.js"));
    assert!(!html.contains("/download/json"));
}

#[test]
fn renders_markdown_with_summary_section() {
    let report = MappingReport::new(
        "D:/Acervo",
        now(),
        RelatorioMetricas::default(),
        FileNode::directory("Acervo".to_string(), vec![]),
    );

    let markdown = render_markdown(&report);

    assert!(markdown.contains("## Arvore de Arquivos"));
    assert!(markdown.contains("## Relatorio Estatistico Quantitativo"));
}

#[test]
fn sorts_directories_before_files() {
    let mut nodes = vec![
        FileNode::file("b.txt".to_string(), Some(".txt".to_string())),
        FileNode::directory("b".to_string(), vec![]),
        FileNode::file("a.txt".to_string(), Some(".txt".to_string())),
        FileNode::directory("a".to_string(), vec![]),
    ];

    nodes.sort_by(compare_nodes);

    assert_eq!(node_name(&nodes[0]), "a");
    assert_eq!(node_name(&nodes[1]), "b");
    assert_eq!(node_name(&nodes[2]), "a.txt");
    assert_eq!(node_name(&nodes[3]), "b.txt");
}

#[test]
fn warning_registration_increments_ignored_items() {
    let mut metrics = RelatorioMetricas::default();
    let mut warnings = Vec::new();

    register_warning(
        &mut metrics,
        &mut warnings,
        &Path::new("D:/Acervo/Restrito").display().to_string(),
        "read_directory",
        io::Error::new(io::ErrorKind::PermissionDenied, "denied").to_string(),
    );

    assert_eq!(metrics.ignored_items, 1);
    assert_eq!(metrics.warning_count, 1);
    assert_eq!(warnings.len(), 1);
}
