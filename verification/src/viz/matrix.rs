//! The tenant / environment / cloud heatmap page: config file counts per
//! tenant, cloud provider and environment, coloured by size.
use vstd::prelude::*;
use crate::error::Error;
use crate::scan::environments::ConfigPath;
use crate::scan::topology::Topology;
use crate::text::{nat_text, push_str, str_eq, strings_view, u128_text, usize_text};
use crate::viz::groups::{sorted_distinct, count_paths, count_files, tenant_total, tenants_total, distinct_names};
use crate::viz::html::{document, document_spec, escape, escape_spec};

verus! {

/// Style rules of the matrix page.
pub const MATRIX_CSS: &'static str = "\n.legend { margin-bottom: 1.5rem; display: flex; gap: 0.5rem; align-items: center; }\n.legend::before { content: 'Scale: '; color: #8b949e; font-size: 0.875rem; }\n.legend-item { padding: 0.25rem 0.75rem; border-radius: 4px; font-size: 0.8rem; border: 1px solid #30363d; }\n.table-wrap { overflow-x: auto; margin-bottom: 1.5rem; }\ntable { border-collapse: collapse; min-width: 100%; }\nth, td { padding: 0.5rem 0.75rem; border: 1px solid #30363d; text-align: center; white-space: nowrap; }\n.tenant-col { text-align: left; position: sticky; left: 0; background: #0d1117; z-index: 1; }\n.tenant-cell { text-align: left; font-weight: 500; position: sticky; left: 0; background: #0d1117; z-index: 1; }\n.cloud-header { background: #161b22; color: #58a6ff; font-size: 0.875rem; text-transform: uppercase; letter-spacing: 0.05em; }\n.env-header { background: #161b22; color: #8b949e; font-size: 0.75rem; }\n.count-cell { font-size: 0.875rem; min-width: 3rem; cursor: default; }\ntfoot td { border-top: 2px solid #58a6ff; }\n.stats { color: #8b949e; font-size: 0.875rem; margin-top: 1rem; }\n.nav { margin-top: 1.5rem; }\n";

/// The cell style of a count: darker green for larger counts.
pub open spec fn cell_color(n: nat) -> Seq<char> {
    if n == 0 {
        "background: #161b22;"@
    } else if n <= 5 {
        "background: #0e4429; color: #7ee787;"@
    } else if n <= 20 {
        "background: #006d32; color: #f0f6fc;"@
    } else {
        "background: #26a641; color: #f0f6fc; font-weight: 600;"@
    }
}

fn color_of(n: u128) -> (r: &'static str)
    ensures
        r@ == cell_color(n as nat),
{
    if n == 0 {
        "background: #161b22;"
    } else if n <= 5 {
        "background: #0e4429; color: #7ee787;"
    } else if n <= 20 {
        "background: #006d32; color: #f0f6fc;"
    } else {
        "background: #26a641; color: #f0f6fc; font-weight: 600;"
    }
}

/// A count as shown in a cell: `-` for zero.
pub open spec fn count_shown(n: nat) -> Seq<char> {
    if n == 0 { "-"@ } else { nat_text(n) }
}

/// The colour scale legend.
pub open spec fn legend_html() -> Seq<char> {
    "<div class=\"legend\">\n"@
        + "  <span class=\"legend-item\" style=\"background:#161b22;\">0</span>\n"@
        + "  <span class=\"legend-item\" style=\"background:#0e4429;color:#7ee787;\">1-5</span>\n"@
        + "  <span class=\"legend-item\" style=\"background:#006d32;color:#f0f6fc;\">6-20</span>\n"@
        + "  <span class=\"legend-item\" style=\"background:#26a641;color:#f0f6fc;\">21+</span>\n"@
        + "</div>\n"@
}

/// The group headers of the first `n` cloud providers, each spanning the
/// `envs` environment columns.
pub open spec fn cloud_headers(clouds: Seq<Seq<char>>, envs: nat, n: int) -> Seq<char>
    decreases n,
{
    if n <= 0 || n > clouds.len() {
        Seq::empty()
    } else {
        cloud_headers(clouds, envs, n - 1) + "<th colspan=\""@ + nat_text(envs) + "\" class=\"cloud-header\">"@
            + escape_spec(clouds[n - 1]) + "</th>\n"@
    }
}

/// The headers of the first `n` environments.
pub open spec fn env_headers(envs: Seq<Seq<char>>, n: int) -> Seq<char>
    decreases n,
{
    if n <= 0 || n > envs.len() {
        Seq::empty()
    } else {
        env_headers(envs, n - 1) + "<th class=\"env-header\">"@ + escape_spec(envs[n - 1]) + "</th>\n"@
    }
}

/// The environment headers repeated under each of `n` cloud providers.
pub open spec fn env_header_row(envs: Seq<Seq<char>>, n: int) -> Seq<char>
    decreases n,
{
    if n <= 0 {
        Seq::empty()
    } else {
        env_header_row(envs, n - 1) + env_headers(envs, envs.len() as int)
    }
}

/// A count cell of tenant `t`, environment `e` and cloud provider `c`.
pub open spec fn count_cell(p: Seq<ConfigPath>, t: Seq<char>, e: Seq<char>, c: Seq<char>) -> Seq<char> {
    let n = count_paths(p, t, e, c, true, p.len() as int);
    "<td class=\"count-cell\" style=\""@ + cell_color(n) + "\" title=\""@ + escape_spec(t) + " / "@ + escape_spec(e) + " / "@
        + escape_spec(c) + ": "@ + nat_text(n) + " files\">"@ + count_shown(n) + "</td>\n"@
}

/// The count cells of tenant `t` and cloud provider `c` in the first `n`
/// environments.
pub open spec fn env_cells(p: Seq<ConfigPath>, t: Seq<char>, c: Seq<char>, envs: Seq<Seq<char>>, n: int) -> Seq<char>
    decreases n,
{
    if n <= 0 || n > envs.len() {
        Seq::empty()
    } else {
        env_cells(p, t, c, envs, n - 1) + count_cell(p, t, envs[n - 1], c)
    }
}

/// The count cells of tenant `t` under the first `n` cloud providers.
pub open spec fn tenant_cells(p: Seq<ConfigPath>, t: Seq<char>, clouds: Seq<Seq<char>>, envs: Seq<Seq<char>>, n: int) -> Seq<char>
    decreases n,
{
    if n <= 0 || n > clouds.len() {
        Seq::empty()
    } else {
        tenant_cells(p, t, clouds, envs, n - 1) + env_cells(p, t, clouds[n - 1], envs, envs.len() as int)
    }
}

/// The rows of the first `n` tenants.
pub open spec fn tenant_rows(p: Seq<ConfigPath>, ts: Seq<Seq<char>>, clouds: Seq<Seq<char>>, envs: Seq<Seq<char>>, n: int) -> Seq<char>
    decreases n,
{
    if n <= 0 || n > ts.len() {
        Seq::empty()
    } else {
        tenant_rows(p, ts, clouds, envs, n - 1) + "<tr>\n"@ + "<td class=\"tenant-cell\">"@ + escape_spec(ts[n - 1]) + "</td>\n"@
            + tenant_cells(p, ts[n - 1], clouds, envs, clouds.len() as int) + "</tr>\n"@
    }
}

/// A total cell of environment `e` and cloud provider `c`.
pub open spec fn total_cell(p: Seq<ConfigPath>, ts: Seq<Seq<char>>, e: Seq<char>, c: Seq<char>) -> Seq<char> {
    let n = tenant_total(p, ts, e, c, true, ts.len() as int);
    "<td class=\"count-cell\" style=\""@ + cell_color(n) + "\"><strong>"@ + count_shown(n) + "</strong></td>\n"@
}

/// The total cells of cloud provider `c` in the first `n` environments.
pub open spec fn env_totals(p: Seq<ConfigPath>, ts: Seq<Seq<char>>, c: Seq<char>, envs: Seq<Seq<char>>, n: int) -> Seq<char>
    decreases n,
{
    if n <= 0 || n > envs.len() {
        Seq::empty()
    } else {
        env_totals(p, ts, c, envs, n - 1) + total_cell(p, ts, envs[n - 1], c)
    }
}

/// The total cells under the first `n` cloud providers.
pub open spec fn total_row(p: Seq<ConfigPath>, ts: Seq<Seq<char>>, clouds: Seq<Seq<char>>, envs: Seq<Seq<char>>, n: int) -> Seq<char>
    decreases n,
{
    if n <= 0 || n > clouds.len() {
        Seq::empty()
    } else {
        total_row(p, ts, clouds, envs, n - 1) + env_totals(p, ts, clouds[n - 1], envs, envs.len() as int)
    }
}

/// The two header rows: cloud providers, then environments under each.
pub open spec fn headers_html(clouds: Seq<Seq<char>>, envs: Seq<Seq<char>>) -> Seq<char> {
    "<thead>\n<tr><th rowspan=\"2\" class=\"tenant-col\">Tenant</th>\n"@ + cloud_headers(clouds, envs.len(), clouds.len() as int) + "</tr>\n"@
        + "<tr>\n"@ + env_header_row(envs, clouds.len() as int) + "</tr>\n</thead>\n"@
}

/// The tenant rows.
pub open spec fn body_rows_html(p: Seq<ConfigPath>, ts: Seq<Seq<char>>, clouds: Seq<Seq<char>>, envs: Seq<Seq<char>>) -> Seq<char> {
    "<tbody>\n"@ + tenant_rows(p, ts, clouds, envs, ts.len() as int) + "</tbody>\n"@
}

/// The totals row.
pub open spec fn foot_html(p: Seq<ConfigPath>, ts: Seq<Seq<char>>, clouds: Seq<Seq<char>>, envs: Seq<Seq<char>>) -> Seq<char> {
    "<tfoot>\n<tr><td class=\"tenant-cell\"><strong>Total</strong></td>\n"@ + total_row(p, ts, clouds, envs, clouds.len() as int)
        + "</tr>\n</tfoot>\n"@
}

/// The heatmap table.
pub open spec fn table_html(p: Seq<ConfigPath>, ts: Seq<Seq<char>>, clouds: Seq<Seq<char>>, envs: Seq<Seq<char>>) -> Seq<char> {
    "<div class=\"table-wrap\">\n"@ + "<table>\n"@ + headers_html(clouds, envs) + body_rows_html(p, ts, clouds, envs)
        + foot_html(p, ts, clouds, envs) + "</table>\n</div>\n"@
}

/// The counts and the link back to the index.
pub open spec fn matrix_stats(tenants: nat, envs: nat, clouds: nat, files: nat) -> Seq<char> {
    "<p class=\"stats\">"@ + nat_text(tenants) + " tenants, "@ + nat_text(envs) + " environments, "@
        + nat_text(clouds) + " cloud providers, "@ + nat_text(files) + " config files</p>\n"@
        + "<p class=\"nav\"><a href=\"index.html\">Back to index</a></p>\n"@
}

/// The body of the matrix page.
pub open spec fn matrix_body(t: Topology) -> Seq<char> {
    let p = t.config_paths@;
    let tl = strings_view(t.taxonomy.tenants@);
    let cl = strings_view(t.taxonomy.cloud_providers@);
    let el = strings_view(t.taxonomy.environments@);
    let ts = distinct_names(tl, tl.len() as int);
    let clouds = distinct_names(cl, cl.len() as int);
    let envs = distinct_names(el, el.len() as int);
    "<h1>Tenant / Environment / Cloud Matrix</h1>\n"@ + "<h2>Config file counts per tenant, environment, and cloud provider</h2>\n"@
        + legend_html()
        + if ts.len() == 0 || clouds.len() == 0 || envs.len() == 0 {
            "<p>No environment data available.</p>\n"@
        } else {
            table_html(p, ts, clouds, envs) + matrix_stats(ts.len(), envs.len(), clouds.len(), p.len())
        }
}

fn push_legend(body: &mut String)
    ensures
        final(body)@ == old(body)@ + legend_html(),
{
    push_str(body, "<div class=\"legend\">\n");
    push_str(body, "  <span class=\"legend-item\" style=\"background:#161b22;\">0</span>\n");
    push_str(body, "  <span class=\"legend-item\" style=\"background:#0e4429;color:#7ee787;\">1-5</span>\n");
    push_str(body, "  <span class=\"legend-item\" style=\"background:#006d32;color:#f0f6fc;\">6-20</span>\n");
    push_str(body, "  <span class=\"legend-item\" style=\"background:#26a641;color:#f0f6fc;\">21+</span>\n");
    push_str(body, "</div>\n");
}

fn push_shown(body: &mut String, n: u128)
    ensures
        final(body)@ == old(body)@ + count_shown(n as nat),
{
    if n == 0 {
        push_str(body, "-");
    } else {
        push_str(body, u128_text(n).as_str());
    }
}

fn push_headers(body: &mut String, clouds: &Vec<String>, envs: &Vec<String>)
    ensures
        final(body)@ == old(body)@ + headers_html(strings_view(clouds@), strings_view(envs@)),
{
    let ghost cv = strings_view(clouds@);
    let ghost ev = strings_view(envs@);
    push_str(body, "<thead>\n<tr><th rowspan=\"2\" class=\"tenant-col\">Tenant</th>\n");
    let ghost o1 = body@;
    let mut i: usize = 0;
    while i < clouds.len()
        invariant
            cv == strings_view(clouds@),
            i <= clouds@.len(),
            body@ == o1 + cloud_headers(cv, envs@.len(), i as int),
        decreases clouds@.len() - i,
    {
        assert(cv[i as int] == clouds@[i as int]@);
        push_str(body, "<th colspan=\"");
        push_str(body, usize_text(envs.len()).as_str());
        push_str(body, "\" class=\"cloud-header\">");
        push_str(body, escape(clouds[i].as_str()).as_str());
        push_str(body, "</th>\n");
        i = i + 1;
    }
    push_str(body, "</tr>\n");
    push_str(body, "<tr>\n");
    let ghost o2 = body@;
    let mut k: usize = 0;
    while k < clouds.len()
        invariant
            ev == strings_view(envs@),
            k <= clouds@.len(),
            body@ == o2 + env_header_row(ev, k as int),
        decreases clouds@.len() - k,
    {
        let ghost o3 = body@;
        let mut j: usize = 0;
        while j < envs.len()
            invariant
                ev == strings_view(envs@),
                j <= envs@.len(),
                body@ == o3 + env_headers(ev, j as int),
            decreases envs@.len() - j,
        {
            assert(ev[j as int] == envs@[j as int]@);
            push_str(body, "<th class=\"env-header\">");
            push_str(body, escape(envs[j].as_str()).as_str());
            push_str(body, "</th>\n");
            j = j + 1;
        }
        k = k + 1;
    }
    push_str(body, "</tr>\n</thead>\n");
}

fn push_count_cell(body: &mut String, p: &[ConfigPath], t: &str, e: &str, c: &str)
    ensures
        final(body)@ == old(body)@ + count_cell(p@, t@, e@, c@),
{
    let n = count_files(p, t, e, c, true);
    push_str(body, "<td class=\"count-cell\" style=\"");
    push_str(body, color_of(n as u128));
    push_str(body, "\" title=\"");
    push_str(body, escape(t).as_str());
    push_str(body, " / ");
    push_str(body, escape(e).as_str());
    push_str(body, " / ");
    push_str(body, escape(c).as_str());
    push_str(body, ": ");
    push_str(body, usize_text(n).as_str());
    push_str(body, " files\">");
    push_shown(body, n as u128);
    push_str(body, "</td>\n");
}

fn push_tenant_cells(body: &mut String, p: &[ConfigPath], t: &str, clouds: &Vec<String>, envs: &Vec<String>)
    ensures
        final(body)@ == old(body)@ + tenant_cells(p@, t@, strings_view(clouds@), strings_view(envs@), clouds@.len() as int),
{
    let ghost cv = strings_view(clouds@);
    let ghost ev = strings_view(envs@);
    let ghost o0 = body@;
    let mut k: usize = 0;
    while k < clouds.len()
        invariant
            cv == strings_view(clouds@),
            ev == strings_view(envs@),
            k <= clouds@.len(),
            body@ == o0 + tenant_cells(p@, t@, cv, ev, k as int),
        decreases clouds@.len() - k,
    {
        let c = clouds[k].as_str();
        assert(cv[k as int] == c@);
        let ghost o1 = body@;
        let mut j: usize = 0;
        while j < envs.len()
            invariant
                ev == strings_view(envs@),
                j <= envs@.len(),
                body@ == o1 + env_cells(p@, t@, c@, ev, j as int),
            decreases envs@.len() - j,
        {
            assert(ev[j as int] == envs@[j as int]@);
            push_count_cell(body, p, t, envs[j].as_str(), c);
            j = j + 1;
        }
        k = k + 1;
    }
}

fn push_rows(body: &mut String, p: &[ConfigPath], ts: &Vec<String>, clouds: &Vec<String>, envs: &Vec<String>)
    ensures
        final(body)@ == old(body)@ + tenant_rows(p@, strings_view(ts@), strings_view(clouds@), strings_view(envs@), ts@.len() as int),
{
    let ghost tv = strings_view(ts@);
    let ghost o0 = body@;
    let mut i: usize = 0;
    while i < ts.len()
        invariant
            tv == strings_view(ts@),
            i <= ts@.len(),
            body@ == o0 + tenant_rows(p@, tv, strings_view(clouds@), strings_view(envs@), i as int),
        decreases ts@.len() - i,
    {
        let t = ts[i].as_str();
        assert(tv[i as int] == t@);
        push_str(body, "<tr>\n");
        push_str(body, "<td class=\"tenant-cell\">");
        push_str(body, escape(t).as_str());
        push_str(body, "</td>\n");
        push_tenant_cells(body, p, t, clouds, envs);
        push_str(body, "</tr>\n");
        i = i + 1;
    }
}

fn push_total_cell(body: &mut String, p: &[ConfigPath], ts: &Vec<String>, e: &str, c: &str)
    ensures
        final(body)@ == old(body)@ + total_cell(p@, strings_view(ts@), e@, c@),
{
    let n = tenants_total(p, ts, e, c, true);
    push_str(body, "<td class=\"count-cell\" style=\"");
    push_str(body, color_of(n));
    push_str(body, "\"><strong>");
    push_shown(body, n);
    push_str(body, "</strong></td>\n");
}

fn push_totals(body: &mut String, p: &[ConfigPath], ts: &Vec<String>, clouds: &Vec<String>, envs: &Vec<String>)
    ensures
        final(body)@ == old(body)@ + total_row(p@, strings_view(ts@), strings_view(clouds@), strings_view(envs@), clouds@.len() as int),
{
    let ghost tv = strings_view(ts@);
    let ghost cv = strings_view(clouds@);
    let ghost ev = strings_view(envs@);
    let ghost o0 = body@;
    let mut k: usize = 0;
    while k < clouds.len()
        invariant
            tv == strings_view(ts@),
            cv == strings_view(clouds@),
            ev == strings_view(envs@),
            k <= clouds@.len(),
            body@ == o0 + total_row(p@, tv, cv, ev, k as int),
        decreases clouds@.len() - k,
    {
        let c = clouds[k].as_str();
        assert(cv[k as int] == c@);
        let ghost o1 = body@;
        let mut j: usize = 0;
        while j < envs.len()
            invariant
                tv == strings_view(ts@),
                ev == strings_view(envs@),
                j <= envs@.len(),
                body@ == o1 + env_totals(p@, tv, c@, ev, j as int),
            decreases envs@.len() - j,
        {
            assert(ev[j as int] == envs@[j as int]@);
            push_total_cell(body, p, ts, envs[j].as_str(), c);
            j = j + 1;
        }
        k = k + 1;
    }
}

fn push_body_rows(body: &mut String, p: &[ConfigPath], ts: &Vec<String>, clouds: &Vec<String>, envs: &Vec<String>)
    ensures
        final(body)@ == old(body)@ + body_rows_html(p@, strings_view(ts@), strings_view(clouds@), strings_view(envs@)),
{
    push_str(body, "<tbody>\n");
    push_rows(body, p, ts, clouds, envs);
    push_str(body, "</tbody>\n");
}

fn push_foot(body: &mut String, p: &[ConfigPath], ts: &Vec<String>, clouds: &Vec<String>, envs: &Vec<String>)
    ensures
        final(body)@ == old(body)@ + foot_html(p@, strings_view(ts@), strings_view(clouds@), strings_view(envs@)),
{
    push_str(body, "<tfoot>\n<tr><td class=\"tenant-cell\"><strong>Total</strong></td>\n");
    push_totals(body, p, ts, clouds, envs);
    push_str(body, "</tr>\n</tfoot>\n");
}

fn push_table(body: &mut String, p: &[ConfigPath], ts: &Vec<String>, clouds: &Vec<String>, envs: &Vec<String>)
    ensures
        final(body)@ == old(body)@ + table_html(p@, strings_view(ts@), strings_view(clouds@), strings_view(envs@)),
{
    push_str(body, "<div class=\"table-wrap\">\n");
    push_str(body, "<table>\n");
    push_headers(body, clouds, envs);
    push_body_rows(body, p, ts, clouds, envs);
    push_foot(body, p, ts, clouds, envs);
    push_str(body, "</table>\n</div>\n");
}

fn push_matrix_stats(body: &mut String, tenants: usize, envs: usize, clouds: usize, files: usize)
    ensures
        final(body)@ == old(body)@ + matrix_stats(tenants as nat, envs as nat, clouds as nat, files as nat),
{
    push_str(body, "<p class=\"stats\">");
    push_str(body, usize_text(tenants).as_str());
    push_str(body, " tenants, ");
    push_str(body, usize_text(envs).as_str());
    push_str(body, " environments, ");
    push_str(body, usize_text(clouds).as_str());
    push_str(body, " cloud providers, ");
    push_str(body, usize_text(files).as_str());
    push_str(body, " config files</p>\n");
    push_str(body, "<p class=\"nav\"><a href=\"index.html\">Back to index</a></p>\n");
}

/// The heatmap page: a self-contained HTML document with config file
/// counts per tenant (rows), cloud provider and environment (columns), a
/// totals row, and counts. It is always produced.
pub fn render(topology: &Topology) -> (r: Result<String, Error>)
    ensures
        r matches Ok(s) && s@ == document_spec("Matrix - dq viz"@, MATRIX_CSS@, matrix_body(*topology)),
{
    let p = topology.config_paths.as_slice();
    let ts = sorted_distinct(&topology.taxonomy.tenants);
    let clouds = sorted_distinct(&topology.taxonomy.cloud_providers);
    let envs = sorted_distinct(&topology.taxonomy.environments);
    let mut body = String::new();
    proof {
        reveal_strlit("");
    }
    assert(body@ =~= Seq::<char>::empty());
    push_str(&mut body, "<h1>Tenant / Environment / Cloud Matrix</h1>\n");
    push_str(&mut body, "<h2>Config file counts per tenant, environment, and cloud provider</h2>\n");
    push_legend(&mut body);
    if ts.len() == 0 || clouds.len() == 0 || envs.len() == 0 {
        push_str(&mut body, "<p>No environment data available.</p>\n");
        return Ok(document("Matrix - dq viz", MATRIX_CSS, body.as_str()));
    }
    push_table(&mut body, p, &ts, &clouds, &envs);
    push_matrix_stats(&mut body, ts.len(), envs.len(), clouds.len(), p.len());
    Ok(document("Matrix - dq viz", MATRIX_CSS, body.as_str()))
}

} // verus!
