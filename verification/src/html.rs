//! The HTML report body: each parsed report element as markup, sections as
//! collapsible blocks, and the chart scripts for the bar charts.
use vstd::prelude::*;
use crate::report::{element_view, elements_view, html_escape, html_escape_spec, Element, ElementV};
use crate::text::{concat, decimal, decimal_exec, extend, extend_str, join, lemma_concat_take, lemma_join_take};

verus! {

pub const SUB_OPEN: &'static str = "<h3 class=\"text-base font-semibold text-amber-600 dark:text-amber-400 mt-6 mb-3 flex items-center gap-2\">\n  <svg class=\"w-4 h-4\" fill=\"currentColor\" viewBox=\"0 0 20 20\"><path d=\"M7.293 14.707a1 1 0 010-1.414L10.586 10 7.293 6.707a1 1 0 011.414-1.414l4 4a1 1 0 010 1.414l-4 4a1 1 0 01-1.414 0z\"/></svg>\n  ";
pub const SUB_CLOSE: &'static str = "\n</h3>\n";
pub const CHART_OPEN: &'static str = "<div class=\"bg-slate-50 border-slate-200 dark:bg-slate-800/50 dark:border-slate-700/50 rounded-xl p-4 my-3 border\">\n  <canvas id=\"";
pub const CHART_MID: &'static str = "\" height=\"";
pub const CHART_CLOSE: &'static str = "\"></canvas>\n</div>\n";
pub const SCRIPT_OPEN: &'static str = "\ncjCharts.push(new Chart(document.getElementById('";
pub const SCRIPT_LABELS: &'static str = "'), {\n  type: 'bar',\n  data: {\n    labels: [";
pub const SCRIPT_VALUES: &'static str = "],\n    datasets: [{\n      data: [";
pub const SCRIPT_CLOSE: &'static str = "],\n      backgroundColor: cjTheme().bar,\n      borderColor: cjTheme().barBorder,\n      borderWidth: 1,\n      borderRadius: 4,\n      barThickness: 18,\n    }]\n  },\n  options: cjChartOptions()\n}));\n";
pub const TABLE_OPEN: &'static str = "<div class=\"overflow-x-auto my-3\">\n<table class=\"w-full text-sm\">\n  <thead>\n    <tr class=\"border-b border-slate-300 dark:border-slate-700\">";
pub const TH_OPEN: &'static str = "\n      <th class=\"text-left py-2 px-3 text-slate-600 dark:text-slate-300 font-semibold text-xs uppercase tracking-wider\">";
pub const TH_CLOSE: &'static str = "</th>";
pub const THEAD_CLOSE: &'static str = "\n    </tr>\n  </thead>\n  <tbody>";
pub const TR_OPEN: &'static str = "\n    <tr class=\"";
pub const TR_OPEN_END: &'static str = " hover:bg-slate-100 dark:hover:bg-slate-700/40 transition-colors\">";
pub const TD_OPEN: &'static str = "\n      <td class=\"py-2 px-3 text-slate-600 dark:text-slate-400 font-mono text-xs\">";
pub const TD_CLOSE: &'static str = "</td>";
pub const TR_CLOSE: &'static str = "\n    </tr>";
pub const TABLE_CLOSE: &'static str = "\n  </tbody>\n</table>\n</div>\n";
pub const STAT_OPEN: &'static str = "<div class=\"flex items-center gap-2 py-1.5 px-3\">\n  <span class=\"text-slate-500 dark:text-slate-400 text-sm\">";
pub const STAT_MID: &'static str = "</span>\n  <span class=\"text-slate-400 dark:text-slate-500\">&middot;</span>\n  <span class=\"text-slate-900 dark:text-slate-200 font-semibold text-sm font-mono\">";
pub const STAT_CLOSE: &'static str = "</span>\n</div>\n";
pub const WARN_OPEN: &'static str = "<div class=\"flex items-start gap-2 py-1.5 px-3 my-1 bg-red-50 border-red-200 dark:bg-red-500/10 dark:border-red-500/20 border rounded-lg\">\n  <svg class=\"w-4 h-4 text-red-500 dark:text-red-400 mt-0.5 shrink-0\" fill=\"currentColor\" viewBox=\"0 0 20 20\"><path fill-rule=\"evenodd\" d=\"M8.257 3.099c.765-1.36 2.722-1.36 3.486 0l5.58 9.92c.75 1.334-.213 2.98-1.742 2.98H4.42c-1.53 0-2.493-1.646-1.743-2.98l5.58-9.92zM11 13a1 1 0 11-2 0 1 1 0 012 0zm-1-8a1 1 0 00-1 1v3a1 1 0 002 0V6a1 1 0 00-1-1z\" clip-rule=\"evenodd\"/></svg>\n  <span class=\"text-red-700 dark:text-red-300 text-sm\">";
pub const WARN_CLOSE: &'static str = "</span>\n</div>\n";
pub const PASS_OPEN: &'static str = "<div class=\"flex items-start gap-2 py-1.5 px-3 my-1 bg-emerald-50 border-emerald-200 dark:bg-emerald-500/10 dark:border-emerald-500/20 border rounded-lg\">\n  <svg class=\"w-4 h-4 text-emerald-600 dark:text-emerald-400 mt-0.5 shrink-0\" fill=\"currentColor\" viewBox=\"0 0 20 20\"><path fill-rule=\"evenodd\" d=\"M10 18a8 8 0 100-16 8 8 0 000 16zm3.707-9.293a1 1 0 00-1.414-1.414L9 10.586 7.707 9.293a1 1 0 00-1.414 1.414l2 2a1 1 0 001.414 0l4-4z\" clip-rule=\"evenodd\"/></svg>\n  <span class=\"text-emerald-700 dark:text-emerald-300 text-sm\">";
pub const PASS_CLOSE: &'static str = "</span>\n</div>\n";
pub const INFO_OPEN: &'static str = "<p class=\"text-slate-500 dark:text-slate-500 text-sm py-1 px-3\">";
pub const INFO_CLOSE: &'static str = "</p>\n";
pub const SECTION_OPEN: &'static str = "<details open class=\"mt-6 group\">\n  <summary class=\"cursor-pointer list-none flex items-center gap-3 py-3 px-4 rounded-lg bg-slate-100 border-slate-200 hover:border-slate-300 dark:bg-slate-900/60 dark:border-slate-800 dark:hover:border-slate-700 border transition-all select-none\">\n    <svg class=\"w-4 h-4 text-slate-400 dark:text-slate-500 transition-transform group-open:rotate-90\" fill=\"currentColor\" viewBox=\"0 0 20 20\"><path fill-rule=\"evenodd\" d=\"M7.293 14.707a1 1 0 010-1.414L10.586 10 7.293 6.707a1 1 0 011.414-1.414l4 4a1 1 0 010 1.414l-4 4a1 1 0 01-1.414 0z\" clip-rule=\"evenodd\"/></svg>\n    <span class=\"h-2 w-2 rounded-full bg-cyan-600 dark:bg-cyan-400 inline-block\"></span>\n    <h2 class=\"text-lg font-bold text-slate-900 dark:text-slate-100\">";
pub const SECTION_TITLE_END: &'static str = "</h2>\n  </summary>\n  <div class=\"pl-4 pt-2 pb-4 border-l-2 border-slate-200 dark:border-slate-800 ml-5 mt-2\">\n";

/// Text escaped for HTML.
pub open spec fn esc(s: Seq<char>) -> Seq<char> {
    html_escape_spec(s)
}

/// The height of a chart's canvas: 28 per bar, between 120 and 600.
pub open spec fn chart_height(n: nat) -> nat {
    let h = n * 28;
    let lo = if h < 120 {
        120
    } else {
        h
    };
    if lo > 600 {
        600
    } else {
        lo
    }
}

/// The element id of the `id`-th chart.
pub open spec fn chart_name(id: nat) -> Seq<char> {
    "chart_"@ + decimal(id)
}

/// The chart's labels, quoted and escaped, comma-separated.
pub open spec fn label_list(items: Seq<(Seq<char>, nat)>) -> Seq<char> {
    join(Seq::new(items.len(), |i: int| seq!['"'] + esc(items[i].0) + seq!['"']), seq![','])
}

/// The chart's values, comma-separated.
pub open spec fn value_list(items: Seq<(Seq<char>, nat)>) -> Seq<char> {
    join(Seq::new(items.len(), |i: int| decimal(items[i].1)), seq![','])
}

/// The markup of a bar chart's canvas.
pub open spec fn chart_markup(id: nat, items: Seq<(Seq<char>, nat)>) -> Seq<char> {
    CHART_OPEN@ + chart_name(id) + CHART_MID@ + decimal(chart_height(items.len())) + CHART_CLOSE@
}

/// The script that draws a bar chart.
pub open spec fn chart_script(id: nat, items: Seq<(Seq<char>, nat)>) -> Seq<char> {
    SCRIPT_OPEN@ + chart_name(id) + SCRIPT_LABELS@ + label_list(items) + SCRIPT_VALUES@ + value_list(items)
        + SCRIPT_CLOSE@
}

/// The background class of the table row with index `i`.
pub open spec fn row_background(i: int) -> Seq<char> {
    if i % 2 == 0 {
        "bg-white dark:bg-slate-800/30"@
    } else {
        "bg-slate-50 dark:bg-slate-800/60"@
    }
}

/// The markup of a table row.
pub open spec fn row_markup(i: int, cells: Seq<Seq<char>>) -> Seq<char> {
    TR_OPEN@ + row_background(i) + TR_OPEN_END@ + concat(
        Seq::new(cells.len(), |j: int| TD_OPEN@ + esc(cells[j]) + TD_CLOSE@),
    ) + TR_CLOSE@
}

/// The markup of a table.
pub open spec fn table_markup(headers: Seq<Seq<char>>, rows: Seq<Seq<Seq<char>>>) -> Seq<char> {
    TABLE_OPEN@ + concat(Seq::new(headers.len(), |j: int| TH_OPEN@ + esc(headers[j]) + TH_CLOSE@))
        + THEAD_CLOSE@ + concat(Seq::new(rows.len(), |i: int| row_markup(i, rows[i]))) + TABLE_CLOSE@
}

/// The markup of one element outside the section grouping (a section header
/// gives none); `id` numbers the element if it is a chart.
pub open spec fn element_markup(e: ElementV, id: nat) -> Seq<char> {
    match e {
        ElementV::SectionHeader(_) => Seq::empty(),
        ElementV::SubHeader(t) => SUB_OPEN@ + esc(t) + SUB_CLOSE@,
        ElementV::BarChart(items) => chart_markup(id, items),
        ElementV::Table(h, r) => table_markup(h, r),
        ElementV::Stat(l, v) => STAT_OPEN@ + esc(l) + STAT_MID@ + esc(v) + STAT_CLOSE@,
        ElementV::Warning(m) => WARN_OPEN@ + esc(m) + WARN_CLOSE@,
        ElementV::Passed(m) => PASS_OPEN@ + esc(m) + PASS_CLOSE@,
        ElementV::Info(m) => INFO_OPEN@ + esc(m) + INFO_CLOSE@,
    }
}

/// The state of the rendering: body so far, chart scripts so far, charts
/// so far, and whether a section is open.
pub type HtmlState = (Seq<char>, Seq<char>, nat, bool);

/// The rendering after one more element: a section header closes the open
/// section and opens its own; a chart adds its canvas and its script.
pub open spec fn html_step(st: HtmlState, e: ElementV) -> HtmlState {
    match e {
        ElementV::SectionHeader(t) => (
            st.0 + (if st.3 {
                SECTION_END@
            } else {
                Seq::empty()
            }) + SECTION_OPEN@ + esc(t) + SECTION_TITLE_END@,
            st.1,
            st.2,
            true,
        ),
        ElementV::BarChart(items) => (
            st.0 + chart_markup(st.2, items),
            st.1 + chart_script(st.2, items),
            st.2 + 1,
            st.3,
        ),
        _ => (st.0 + element_markup(e, st.2), st.1, st.2, st.3),
    }
}

/// The rendering of the elements in order.
pub open spec fn html_fold(es: Seq<ElementV>) -> HtmlState
    decreases es.len(),
{
    if es.len() == 0 {
        (Seq::empty(), Seq::empty(), 0, false)
    } else {
        html_step(html_fold(es.drop_last()), es.last())
    }
}

/// The report body (with the last section closed) and the chart scripts.
pub open spec fn html_body(es: Seq<ElementV>) -> (Seq<char>, Seq<char>) {
    let st = html_fold(es);
    (st.0 + if st.3 {
        SECTION_END@
    } else {
        Seq::empty()
    }, st.1)
}

/// Closes a section.
pub const SECTION_END: &'static str = "</div>\n</details>\n";

fn escaped(s: &str, out: &mut Vec<char>)
    ensures
        final(out)@ == old(out)@ + esc(s@),
{
    let e = html_escape(s);
    extend_str(out, e.as_str());
}

fn table_markup_exec(headers: &Vec<String>, rows: &Vec<Vec<String>>, out: &mut Vec<char>)
    ensures
        final(out)@ == old(out)@ + table_markup(
            crate::report::strings_v(headers@),
            crate::report::rows_v(rows@),
        ),
{
    let ghost o0 = out@;
    let ghost hv = crate::report::strings_v(headers@);
    let ghost rv = crate::report::rows_v(rows@);
    let ghost hs = Seq::new(hv.len(), |j: int| TH_OPEN@ + esc(hv[j]) + TH_CLOSE@);
    let ghost rs = Seq::new(rv.len(), |i: int| row_markup(i, rv[i]));
    extend_str(out, TABLE_OPEN);
    let mut j: usize = 0;
    while j < headers.len()
        invariant
            j <= headers@.len(),
            hv == crate::report::strings_v(headers@),
            hs == Seq::new(hv.len(), |j: int| TH_OPEN@ + esc(hv[j]) + TH_CLOSE@),
            out@ == o0 + TABLE_OPEN@ + concat(hs.take(j as int)),
        decreases headers@.len() - j,
    {
        proof {
            lemma_concat_take(hs, j as int);
        }
        extend_str(out, TH_OPEN);
        escaped(headers[j].as_str(), out);
        extend_str(out, TH_CLOSE);
        proof {
            assert(hs[j as int] == TH_OPEN@ + esc(headers@[j as int]@) + TH_CLOSE@);
        }
        j += 1;
    }
    proof {
        assert(hs.take(headers@.len() as int) =~= hs);
    }
    extend_str(out, THEAD_CLOSE);
    let ghost o1 = out@;
    let mut i: usize = 0;
    while i < rows.len()
        invariant
            i <= rows@.len(),
            rv == crate::report::rows_v(rows@),
            rs == Seq::new(rv.len(), |i: int| row_markup(i, rv[i])),
            out@ == o1 + concat(rs.take(i as int)),
        decreases rows@.len() - i,
    {
        proof {
            lemma_concat_take(rs, i as int);
        }
        let ghost before = out@;
        let row = &rows[i];
        let ghost cv = crate::report::strings_v(row@);
        let ghost cs = Seq::new(cv.len(), |k: int| TD_OPEN@ + esc(cv[k]) + TD_CLOSE@);
        extend_str(out, TR_OPEN);
        if i % 2 == 0 {
            extend_str(out, "bg-white dark:bg-slate-800/30");
        } else {
            extend_str(out, "bg-slate-50 dark:bg-slate-800/60");
        }
        extend_str(out, TR_OPEN_END);
        let ghost o2 = out@;
        let mut k: usize = 0;
        while k < row.len()
            invariant
                k <= row@.len(),
                cv == crate::report::strings_v(row@),
                cs == Seq::new(cv.len(), |k: int| TD_OPEN@ + esc(cv[k]) + TD_CLOSE@),
                out@ == o2 + concat(cs.take(k as int)),
            decreases row@.len() - k,
        {
            proof {
                lemma_concat_take(cs, k as int);
            }
            extend_str(out, TD_OPEN);
            escaped(row[k].as_str(), out);
            extend_str(out, TD_CLOSE);
            proof {
                assert(cs[k as int] == TD_OPEN@ + esc(row@[k as int]@) + TD_CLOSE@);
            }
            k += 1;
        }
        proof {
            assert(cs.take(row@.len() as int) =~= cs);
        }
        extend_str(out, TR_CLOSE);
        proof {
            assert(rv[i as int] == cv);
            assert(out@ =~= before + row_markup(i as int, rv[i as int]));
            assert(rs[i as int] == row_markup(i as int, rv[i as int]));
        }
        i += 1;
    }
    extend_str(out, TABLE_CLOSE);
    proof {
        assert(rs.take(rows@.len() as int) =~= rs);
        assert(out@ =~= o0 + table_markup(hv, rv));
    }
}

fn chart_exec(id: usize, items: &Vec<(String, usize)>, body: &mut Vec<char>, scripts: &mut Vec<char>)
    ensures
        final(body)@ == old(body)@ + chart_markup(id as nat, crate::report::items_v(items@)),
        final(scripts)@ == old(scripts)@ + chart_script(id as nat, crate::report::items_v(items@)),
{
    let ghost iv = crate::report::items_v(items@);
    let mut name: Vec<char> = Vec::new();
    extend_str(&mut name, "chart_");
    extend(&mut name, &decimal_exec(id));
    let n = items.len();
    let height: usize = if n >= 22 {
        600
    } else if n * 28 < 120 {
        120
    } else {
        n * 28
    };
    proof {
        assert(height == chart_height(iv.len()));
    }
    extend_str(body, CHART_OPEN);
    extend(body, &name);
    extend_str(body, CHART_MID);
    extend(body, &decimal_exec(height));
    extend_str(body, CHART_CLOSE);
    let ghost s0 = scripts@;
    extend_str(scripts, SCRIPT_OPEN);
    extend(scripts, &name);
    extend_str(scripts, SCRIPT_LABELS);
    let ghost ls = Seq::new(iv.len(), |i: int| seq!['"'] + esc(iv[i].0) + seq!['"']);
    let ghost vs = Seq::new(iv.len(), |i: int| decimal(iv[i].1));
    let ghost s1 = scripts@;
    let mut i: usize = 0;
    proof {
        assert(ls.take(0) =~= Seq::<Seq<char>>::empty());
        assert(join(ls.take(0), seq![',']) =~= Seq::<char>::empty());
    }
    while i < n
        invariant
            i <= n,
            n == items@.len(),
            iv == crate::report::items_v(items@),
            ls == Seq::new(iv.len(), |i: int| seq!['"'] + esc(iv[i].0) + seq!['"']),
            scripts@ == s1 + join(ls.take(i as int), seq![',']),
        decreases n - i,
    {
        proof {
            lemma_join_take(ls, seq![','], i as int);
        }
        if i > 0 {
            scripts.push(',');
        }
        scripts.push('"');
        escaped(items[i].0.as_str(), scripts);
        scripts.push('"');
        proof {
            assert(ls[i as int] == seq!['"'] + esc(items@[i as int].0@) + seq!['"']);
            if i == 0 {
                assert(scripts@ =~= s1 + ls[0]);
            } else {
                assert(scripts@ =~= s1 + join(ls.take(i as int), seq![',']) + seq![','] + ls[i as int]);
            }
        }
        i += 1;
    }
    proof {
        assert(ls.take(n as int) =~= ls);
    }
    extend_str(scripts, SCRIPT_VALUES);
    let ghost s2 = scripts@;
    let mut k: usize = 0;
    proof {
        assert(vs.take(0) =~= Seq::<Seq<char>>::empty());
        assert(join(vs.take(0), seq![',']) =~= Seq::<char>::empty());
    }
    while k < n
        invariant
            k <= n,
            n == items@.len(),
            iv == crate::report::items_v(items@),
            vs == Seq::new(iv.len(), |i: int| decimal(iv[i].1)),
            scripts@ == s2 + join(vs.take(k as int), seq![',']),
        decreases n - k,
    {
        proof {
            lemma_join_take(vs, seq![','], k as int);
        }
        if k > 0 {
            scripts.push(',');
        }
        extend(scripts, &decimal_exec(items[k].1));
        proof {
            assert(vs[k as int] == decimal(items@[k as int].1 as nat));
            if k == 0 {
                assert(scripts@ =~= s2 + vs[0]);
            } else {
                assert(scripts@ =~= s2 + join(vs.take(k as int), seq![',']) + seq![','] + vs[k as int]);
            }
        }
        k += 1;
    }
    proof {
        assert(vs.take(n as int) =~= vs);
    }
    extend_str(scripts, SCRIPT_CLOSE);
    proof {
        assert(scripts@ =~= s0 + chart_script(id as nat, iv));
    }
}

/// Renders the parsed report as the HTML report's body: sections as
/// collapsible blocks, each element as markup, and the scripts of the bar
/// charts, numbered in order.
pub fn html_report_body(elems: &Vec<Element>) -> (r: (String, String))
    requires
        elems@.len() < usize::MAX,
    ensures
        (r.0@, r.1@) == html_body(elements_view(elems@)),
{
    let ghost ev = elements_view(elems@);
    let mut body: Vec<char> = Vec::new();
    let mut scripts: Vec<char> = Vec::new();
    let mut chart_id: usize = 0;
    let mut in_section = false;
    let mut i: usize = 0;
    proof {
        assert(ev.take(0) =~= Seq::<ElementV>::empty());
    }
    while i < elems.len()
        invariant
            i <= elems@.len(),
            elems@.len() < usize::MAX,
            ev == elements_view(elems@),
            chart_id <= i,
            html_fold(ev.take(i as int)) == (body@, scripts@, chart_id as nat, in_section),
        decreases elems@.len() - i,
    {
        proof {
            assert(ev.take(i + 1).drop_last() =~= ev.take(i as int));
            assert(ev.take(i + 1).last() == element_view(elems@[i as int]));
        }
        let ghost st = (body@, scripts@, chart_id as nat, in_section);
        match &elems[i] {
            Element::SectionHeader(title) => {
                if in_section {
                    extend_str(&mut body, SECTION_END);
                }
                extend_str(&mut body, SECTION_OPEN);
                escaped(title.as_str(), &mut body);
                extend_str(&mut body, SECTION_TITLE_END);
                in_section = true;
                proof {
                    assert(body@ =~= st.0 + (if st.3 {
                        SECTION_END@
                    } else {
                        Seq::empty()
                    }) + SECTION_OPEN@ + esc(title@) + SECTION_TITLE_END@);
                }
            },
            Element::SubHeader(t) => {
                extend_str(&mut body, SUB_OPEN);
                escaped(t.as_str(), &mut body);
                extend_str(&mut body, SUB_CLOSE);
                proof {
                    assert(body@ =~= st.0 + (SUB_OPEN@ + esc(t@) + SUB_CLOSE@));
                }
            },
            Element::BarChart(items) => {
                chart_exec(chart_id, items, &mut body, &mut scripts);
                chart_id += 1;
            },
            Element::Table { headers, rows } => {
                table_markup_exec(headers, rows, &mut body);
            },
            Element::Stat(l, v) => {
                extend_str(&mut body, STAT_OPEN);
                escaped(l.as_str(), &mut body);
                extend_str(&mut body, STAT_MID);
                escaped(v.as_str(), &mut body);
                extend_str(&mut body, STAT_CLOSE);
                proof {
                    assert(body@ =~= st.0 + (STAT_OPEN@ + esc(l@) + STAT_MID@ + esc(v@) + STAT_CLOSE@));
                }
            },
            Element::Warning(m) => {
                extend_str(&mut body, WARN_OPEN);
                escaped(m.as_str(), &mut body);
                extend_str(&mut body, WARN_CLOSE);
                proof {
                    assert(body@ =~= st.0 + (WARN_OPEN@ + esc(m@) + WARN_CLOSE@));
                }
            },
            Element::Passed(m) => {
                extend_str(&mut body, PASS_OPEN);
                escaped(m.as_str(), &mut body);
                extend_str(&mut body, PASS_CLOSE);
                proof {
                    assert(body@ =~= st.0 + (PASS_OPEN@ + esc(m@) + PASS_CLOSE@));
                }
            },
            Element::Info(m) => {
                extend_str(&mut body, INFO_OPEN);
                escaped(m.as_str(), &mut body);
                extend_str(&mut body, INFO_CLOSE);
                proof {
                    assert(body@ =~= st.0 + (INFO_OPEN@ + esc(m@) + INFO_CLOSE@));
                }
            },
        }
        i += 1;
    }
    proof {
        assert(ev.take(elems@.len() as int) =~= ev);
    }
    let ghost st = (body@, scripts@, chart_id as nat, in_section);
    if in_section {
        extend_str(&mut body, SECTION_END);
    }
    proof {
        assert(body@ =~= st.0 + if st.3 {
            SECTION_END@
        } else {
            Seq::empty()
        });
    }
    (crate::text::string_of(&body), crate::text::string_of(&scripts))
}

} // verus!
