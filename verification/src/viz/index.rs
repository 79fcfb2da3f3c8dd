//! The landing page linking the generated views.
use vstd::prelude::*;
use crate::text::{nat_text, push_str, str_eq, strings_view, to_owned_string, usize_text};
use crate::viz::html::{document, document_spec};

verus! {

/// Style rules of the landing page.
pub const INDEX_CSS: &'static str = "\n.card-list { display: flex; flex-direction: column; gap: 1rem; max-width: 640px; }\n.card { display: block; background: #161b22; border: 1px solid #30363d; border-radius: 8px; padding: 1.25rem; transition: border-color 0.15s; }\n.card:hover { border-color: #58a6ff; text-decoration: none; }\n.card-title { font-size: 1.1rem; font-weight: 600; color: #f0f6fc; margin-bottom: 0.35rem; }\n.card-desc { font-size: 0.875rem; color: #8b949e; }\n.stats { color: #484f58; font-size: 0.8rem; margin-top: 2rem; }\n";

/// The known views: file name, title and description.
pub open spec fn pages() -> Seq<(Seq<char>, Seq<char>, Seq<char>)> {
    seq![
        ("matrix.html"@, "Tenant / Environment / Cloud Matrix"@, "Heatmap of config file counts per tenant, environment, and cloud provider combination."@),
        ("deploy-graph.html"@, "Deployment Graph"@, "ApplicationSets grouped by the Helm chart they deploy, with generator type badges."@),
        ("chart-deps.html"@, "Chart Dependencies"@, "Helm chart dependency tree showing parent/child relationships and external dependencies."@),
    ]
}

/// The card linking one view.
pub open spec fn card_spec(p: (Seq<char>, Seq<char>, Seq<char>)) -> Seq<char> {
    "<a href=\""@ + p.0 + "\" class=\"card\">\n  <div class=\"card-title\">"@ + p.1 + "</div>\n  <div class=\"card-desc\">"@ + p.2 + "</div>\n</a>\n"@
}

/// Cards of the first `n` known views among the generated files.
pub open spec fn cards_spec(g: Seq<Seq<char>>, n: int) -> Seq<char>
    decreases n,
{
    if n <= 0 || n > pages().len() {
        Seq::empty()
    } else {
        cards_spec(g, n - 1) + if g.contains(pages()[n - 1].0) { card_spec(pages()[n - 1]) } else { Seq::empty() }
    }
}

/// The landing page for the generated files.
pub open spec fn index_spec(g: Seq<Seq<char>>) -> Seq<char> {
    document_spec(
        "dq viz"@,
        INDEX_CSS@,
        "<h1>dq viz</h1>\n<h2>GitOps topology visualizations</h2>\n<div class=\"card-list\">\n"@
            + cards_spec(g, 3)
            + "</div>\n<p class=\"stats\">"@ + nat_text(g.len()) + " visualizations generated</p>\n"@,
    )
}

fn page(i: usize) -> (r: (&'static str, &'static str, &'static str))
    requires
        i < 3,
    ensures
        (r.0@, r.1@, r.2@) == pages()[i as int],
{
    if i == 0 {
        ("matrix.html", "Tenant / Environment / Cloud Matrix", "Heatmap of config file counts per tenant, environment, and cloud provider combination.")
    } else if i == 1 {
        ("deploy-graph.html", "Deployment Graph", "ApplicationSets grouped by the Helm chart they deploy, with generator type badges.")
    } else {
        ("chart-deps.html", "Chart Dependencies", "Helm chart dependency tree showing parent/child relationships and external dependencies.")
    }
}

/// Renders the landing page linking every generated view it knows.
pub fn render(generated: &Vec<String>) -> (r: String)
    ensures
        r@ == index_spec(strings_view(generated@)),
{
    let ghost g = strings_view(generated@);
    let mut body = to_owned_string("<h1>dq viz</h1>\n<h2>GitOps topology visualizations</h2>\n<div class=\"card-list\">\n");
    let ghost head = body@;
    let mut i: usize = 0;
    while i < 3
        invariant
            g == strings_view(generated@),
            i <= 3,
            body@ == head + cards_spec(g, i as int),
        decreases 3 - i,
    {
        let (file, title, desc) = page(i);
        if crate::text::strings_contain(generated, file) {
            push_str(&mut body, "<a href=\"");
            push_str(&mut body, file);
            push_str(&mut body, "\" class=\"card\">\n  <div class=\"card-title\">");
            push_str(&mut body, title);
            push_str(&mut body, "</div>\n  <div class=\"card-desc\">");
            push_str(&mut body, desc);
            push_str(&mut body, "</div>\n</a>\n");
        }
        assert(body@ =~= head + cards_spec(g, i + 1));
        i = i + 1;
    }
    push_str(&mut body, "</div>\n<p class=\"stats\">");
    push_str(&mut body, usize_text(generated.len()).as_str());
    push_str(&mut body, " visualizations generated</p>\n");
    document("dq viz", INDEX_CSS, body.as_str())
}

} // verus!
