//! The Markdown report: the tree as a nested list and the summary tables.
use vstd::prelude::*;
use crate::text;
use crate::node::{self, FileNode, NodeView};
use crate::metrics::{self, CountsView};
use crate::report::MappingReport;

verus! {

/// The nesting depth of a node below itself (0 for a file or an empty
/// directory counts its own level only).
pub open spec fn node_height(n: NodeView) -> nat
    decreases n,
{
    match n {
        NodeView::File { .. } => 0,
        NodeView::Directory { children, .. } => 1 + children_height(children),
    }
}

/// The greatest height among sibling nodes.
pub open spec fn children_height(cs: Seq<NodeView>) -> nat
    decreases cs,
{
    if cs.len() == 0 {
        0
    } else {
        let a = children_height(cs.drop_last());
        let b = node_height(cs.last());
        if a >= b { a } else { b }
    }
}

/// Two spaces per level.
pub open spec fn indentation(level: nat) -> Seq<char> {
    text::repeat_text("  "@, level)
}

/// A node and its descendants as Markdown list items, indented by level.
pub open spec fn tree_markdown(n: NodeView, level: nat) -> Seq<char>
    decreases n,
{
    match n {
        NodeView::File { name, .. } => indentation(level) + "* "@ + name + "\n"@,
        NodeView::Directory { name, children } => indentation(level) + "* **"@ + name + "/**\n"@
            + children_markdown(children, level + 1),
    }
}

/// Sibling nodes as Markdown list items, in order.
pub open spec fn children_markdown(cs: Seq<NodeView>, level: nat) -> Seq<char>
    decreases cs,
{
    if cs.len() == 0 {
        Seq::empty()
    } else {
        children_markdown(cs.drop_last(), level) + tree_markdown(cs.last(), level)
    }
}

/// The table rows for the extension counts, in order.
pub open spec fn extension_rows(s: CountsView) -> Seq<char>
    decreases s.len(),
{
    if s.len() == 0 {
        Seq::empty()
    } else {
        extension_rows(s.drop_last()) + "| `"@ + s.last().0 + "` | "@ + text::decimal_digits(
            s.last().1 as nat,
        ) + " |\n"@
    }
}

/// The extension table's body: its rows, or one row with a zero count for
/// files without extension when no file was counted.
pub open spec fn extension_table(s: CountsView) -> Seq<char> {
    if s.len() == 0 {
        "| `[sem extensao]` | 0 |\n"@
    } else {
        extension_rows(s)
    }
}

/// The whole Markdown report.
pub open spec fn markdown_of(r: MappingReport) -> Seq<char> {
    "# Mapeamento do Diretorio: `"@ + r.source@ + "`\n\n"@
        + "## Arvore de Arquivos\n\n"@
        + tree_markdown(r.tree@, 0)
        + "\n---\n\n"@
        + "## Relatorio Estatistico Quantitativo\n\n"@
        + "- **Data de geracao:** "@ + r.generated_at@ + "\n"@
        + "- **Total de Diretorios:** "@ + text::decimal_digits(r.summary.total_directories as nat) + "\n"@
        + "- **Total de Arquivos:** "@ + text::decimal_digits(r.summary.total_files as nat) + "\n\n"@
        + "### Quantitativo por Extensao/Formato\n\n"@
        + "| Extensao / Formato | Quantidade de Arquivos |\n"@
        + "| :--- | ---: |\n"@
        + extension_table(r.summary.by_extension@)
}

/// Renders the report as Markdown.
pub fn render_markdown(report: &MappingReport) -> (r: String)
    requires
        node_height(report.tree@) < usize::MAX,
    ensures
        r@ == markdown_of(*report),
{
    let mut output = String::new();
    text::push_text(&mut output, "# Mapeamento do Diretorio: `");
    text::push_text(&mut output, report.source.as_str());
    text::push_text(&mut output, "`\n\n");
    text::push_text(&mut output, "## Arvore de Arquivos\n\n");
    write_markdown_tree(&report.tree, 0, &mut output);
    text::push_text(&mut output, "\n---\n\n");
    text::push_text(&mut output, "## Relatorio Estatistico Quantitativo\n\n");
    text::push_text(&mut output, "- **Data de geracao:** ");
    text::push_text(&mut output, report.generated_at.as_str());
    text::push_text(&mut output, "\n");
    text::push_text(&mut output, "- **Total de Diretorios:** ");
    text::push_decimal(&mut output, report.summary.total_directories);
    text::push_text(&mut output, "\n");
    text::push_text(&mut output, "- **Total de Arquivos:** ");
    text::push_decimal(&mut output, report.summary.total_files);
    text::push_text(&mut output, "\n\n");
    text::push_text(&mut output, "### Quantitativo por Extensao/Formato\n\n");
    text::push_text(&mut output, "| Extensao / Formato | Quantidade de Arquivos |\n");
    text::push_text(&mut output, "| :--- | ---: |\n");
    if report.summary.by_extension.is_empty() {
        text::push_text(&mut output, "| `[sem extensao]` | 0 |\n");
    } else {
        let entries = report.summary.by_extension.entries();
        let mut i: usize = 0;
        let ghost start = output@;
        assert(extension_rows(metrics::entries_view(entries@).take(0)) =~= Seq::<char>::empty());
        while i < entries.len()
            invariant
                i <= entries.len(),
                metrics::entries_view(entries@) == report.summary.by_extension@,
                output@ == start + extension_rows(metrics::entries_view(entries@).take(i as int)),
            decreases entries.len() - i,
        {
            let ghost s = metrics::entries_view(entries@);
            text::push_text(&mut output, "| `");
            text::push_text(&mut output, entries[i].0.as_str());
            text::push_text(&mut output, "` | ");
            text::push_decimal(&mut output, entries[i].1);
            text::push_text(&mut output, " |\n");
            proof {
                assert(s.take(i + 1).drop_last() =~= s.take(i as int));
                assert(s.take(i + 1).last() == s[i as int]);
            }
            i = i + 1;
            assert(output@ =~= start + extension_rows(s.take(i as int)));
        }
        assert(metrics::entries_view(entries@).take(i as int) =~= metrics::entries_view(entries@));
    }
    assert(output@ =~= markdown_of(*report));
    output
}

/// Appends a node and its descendants to `output` as Markdown list items.
pub fn write_markdown_tree(node: &FileNode, level: usize, output: &mut String)
    requires
        level + node_height(node@) < usize::MAX,
    ensures
        final(output)@ == old(output)@ + tree_markdown(node@, level as nat),
    decreases node,
{
    let ghost start = output@;
    text::push_repeated(output, "  ", level);
    match node {
        FileNode::File { name, .. } => {
            text::push_text(output, "* ");
            text::push_text(output, name.as_str());
            text::push_text(output, "\n");
            assert(output@ =~= start + tree_markdown(node@, level as nat));
        },
        FileNode::Directory { name, children } => {
            text::push_text(output, "* **");
            text::push_text(output, name.as_str());
            text::push_text(output, "/**\n");
            let ghost cs = node@->Directory_children;
            let ghost head = output@;
            let mut i: usize = 0;
            assert(children_markdown(cs.take(0), (level + 1) as nat) =~= Seq::<char>::empty());
            while i < children.len()
                invariant
                    i <= children.len(),
                    *node is Directory,
                    node->Directory_children == *children,
                    cs == node@->Directory_children,
                    cs.len() == children.len(),
                    forall|m: int| 0 <= m < children.len() ==> #[trigger] cs[m] == children@[m]@,
                    level + node_height(node@) < usize::MAX,
                    node_height(node@) == 1 + children_height(cs),
                    output@ == head + children_markdown(cs.take(i as int), (level + 1) as nat),
                decreases children.len() - i,
            {
                proof {
                    lemma_child_height(cs, i as int);
                    assert(decreases_to!(*node => node->Directory_children));
                    assert(decreases_to!(node->Directory_children => node->Directory_children@));
                    assert(decreases_to!(node->Directory_children@ => node->Directory_children@[i as int]));
                    assert(decreases_to!(*node => node->Directory_children@[i as int]));
                }
                write_markdown_tree(&children[i], level + 1, output);
                proof {
                    assert(cs.take(i + 1).drop_last() =~= cs.take(i as int));
                    assert(cs.take(i + 1).last() == cs[i as int]);
                }
                i = i + 1;
            }
            assert(cs.take(i as int) =~= cs);
            assert(output@ =~= start + tree_markdown(node@, level as nat));
        },
    }
}

/// A child is no higher than its siblings' greatest height.
proof fn lemma_child_height(cs: Seq<NodeView>, i: int)
    requires
        0 <= i < cs.len(),
    ensures
        node_height(cs[i]) <= children_height(cs),
    decreases cs.len(),
{
    if i < cs.len() - 1 {
        lemma_child_height(cs.drop_last(), i);
    }
}

}

verus! {

/// A node and its descendants as a compact list: a page mark before files,
/// a folder mark before directories.
pub open spec fn marked_markdown(n: NodeView, level: nat) -> Seq<char>
    decreases n,
{
    match n {
        NodeView::File { name, .. } => indentation(level) + "* \u{1F4C4} "@ + name + "\n"@,
        NodeView::Directory { name, children } => indentation(level) + "* \u{1F4C1} **"@ + name + "/**\n"@
            + marked_children_markdown(children, level + 1),
    }
}

/// Sibling nodes as a compact list with marks, in order.
pub open spec fn marked_children_markdown(cs: Seq<NodeView>, level: nat) -> Seq<char>
    decreases cs,
{
    if cs.len() == 0 {
        Seq::empty()
    } else {
        marked_children_markdown(cs.drop_last(), level) + marked_markdown(cs.last(), level)
    }
}

/// Appends a node and its descendants to `escritor` as a compact list with
/// page and folder marks.
pub fn imprimir_markdown_arquivo(node: &FileNode, nivel: usize, escritor: &mut String)
    requires
        nivel + node_height(node@) < usize::MAX,
    ensures
        final(escritor)@ == old(escritor)@ + marked_markdown(node@, nivel as nat),
    decreases node,
{
    let ghost start = escritor@;
    text::push_repeated(escritor, "  ", nivel);
    match node {
        FileNode::File { name, .. } => {
            text::push_text(escritor, "* \u{1F4C4} ");
            text::push_text(escritor, name.as_str());
            text::push_text(escritor, "\n");
            assert(escritor@ =~= start + marked_markdown(node@, nivel as nat));
        },
        FileNode::Directory { name, children } => {
            text::push_text(escritor, "* \u{1F4C1} **");
            text::push_text(escritor, name.as_str());
            text::push_text(escritor, "/**\n");
            let ghost cs = node@->Directory_children;
            let ghost head = escritor@;
            let mut i: usize = 0;
            assert(marked_children_markdown(cs.take(0), (nivel + 1) as nat) =~= Seq::<char>::empty());
            while i < children.len()
                invariant
                    i <= children.len(),
                    *node is Directory,
                    node->Directory_children == *children,
                    cs == node@->Directory_children,
                    cs.len() == children.len(),
                    forall|m: int| 0 <= m < children.len() ==> #[trigger] cs[m] == children@[m]@,
                    nivel + node_height(node@) < usize::MAX,
                    node_height(node@) == 1 + children_height(cs),
                    escritor@ == head + marked_children_markdown(cs.take(i as int), (nivel + 1) as nat),
                decreases children.len() - i,
            {
                proof {
                    lemma_child_height(cs, i as int);
                    assert(decreases_to!(*node => node->Directory_children));
                    assert(decreases_to!(node->Directory_children => node->Directory_children@));
                    assert(decreases_to!(node->Directory_children@ => node->Directory_children@[i as int]));
                    assert(decreases_to!(*node => node->Directory_children@[i as int]));
                }
                imprimir_markdown_arquivo(&children[i], nivel + 1, escritor);
                proof {
                    assert(cs.take(i + 1).drop_last() =~= cs.take(i as int));
                    assert(cs.take(i + 1).last() == cs[i as int]);
                }
                i = i + 1;
            }
            assert(cs.take(i as int) =~= cs);
            assert(escritor@ =~= start + marked_markdown(node@, nivel as nat));
        },
    }
}

}
