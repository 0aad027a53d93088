//! Terminal report output: line formatting for headers, stats, warnings,
//! bar charts, sparklines and tables, and the output sink that either
//! buffers lines or hands them to the terminal.
use vstd::prelude::*;
use crate::text::{
    byte_prefix, byte_prefix_exec, chars_of, concat, decimal, decimal_exec, extend, extend_str,
    is_boundary, is_boundary_exec, join, lemma_concat_take, lemma_join_take, pad_right, pad_right_exec, push_char,
    repeat, repeat_exec, string_of, utf8_len, utf8_len_capped_exec, views,
};

verus! {

/// Widest bar a bar chart draws.
pub const MAX_BAR_WIDTH: usize = 40;

/// Where report lines go: into the buffer while one is active, otherwise
/// onto the list of lines for the terminal, in order.
pub struct Output {
    pub buffer: Option<String>,
    pub printed: Vec<String>,
}

/// The abstract state of an [`Output`].
pub struct OutputView {
    pub buffer: Option<Seq<char>>,
    pub printed: Seq<Seq<char>>,
}

impl View for Output {
    type V = OutputView;

    open spec fn view(&self) -> OutputView {
        OutputView {
            buffer: match self.buffer {
                Some(b) => Some(b@),
                None => None,
            },
            printed: Seq::new(self.printed@.len(), |i: int| self.printed@[i]@),
        }
    }
}

/// The effect of writing one line.
pub open spec fn write_line(o: OutputView, l: Seq<char>) -> OutputView {
    match o.buffer {
        Some(b) => OutputView { buffer: Some(b + l.push('\n')), printed: o.printed },
        None => OutputView { buffer: None, printed: o.printed.push(l) },
    }
}

/// The effect of writing several lines, in order.
pub open spec fn write_lines(o: OutputView, ls: Seq<Seq<char>>) -> OutputView
    decreases ls.len(),
{
    if ls.len() == 0 {
        o
    } else {
        write_line(write_lines(o, ls.drop_last()), ls.last())
    }
}

/// Writing one more line after a list of lines.
pub proof fn lemma_write_lines_push(o: OutputView, ls: Seq<Seq<char>>, l: Seq<char>)
    ensures
        write_lines(o, ls.push(l)) == write_line(write_lines(o, ls), l),
{
    assert(ls.push(l).drop_last() == ls);
}

/// Writing a list of one line.
pub proof fn lemma_write_lines_one(o: OutputView, l: Seq<char>)
    ensures
        write_lines(o, seq![l]) == write_line(o, l),
{
    assert(seq![l].drop_last() =~= Seq::<Seq<char>>::empty());
    assert(write_lines(o, Seq::<Seq<char>>::empty()) == o);
}

/// The text a buffer collects from the given lines: each followed by a newline.
pub open spec fn buffered_text(ls: Seq<Seq<char>>) -> Seq<char>
    decreases ls.len(),
{
    if ls.len() == 0 {
        Seq::empty()
    } else {
        buffered_text(ls.drop_last()) + ls.last().push('\n')
    }
}

/// Lines written while a buffer is active are appended to it, each followed
/// by a newline, and the terminal lines stay as they were; with no buffer
/// active they go to the terminal, in order.
pub proof fn lemma_write_lines_effect(o: OutputView, ls: Seq<Seq<char>>)
    ensures
        o.buffer matches Some(b) ==> write_lines(o, ls) == (OutputView {
            buffer: Some(b + buffered_text(ls)),
            printed: o.printed,
        }),
        o.buffer is None ==> write_lines(o, ls) == (OutputView { buffer: None, printed: o.printed + ls }),
    decreases ls.len(),
{
    if ls.len() == 0 {
        match o.buffer {
            Some(b) => {
                assert(b + buffered_text(ls) =~= b);
            },
            None => {
                assert(o.printed + ls =~= o.printed);
            },
        }
    } else {
        lemma_write_lines_effect(o, ls.drop_last());
        match o.buffer {
            Some(b) => {
                assert(b + buffered_text(ls.drop_last()) + ls.last().push('\n') =~= b + buffered_text(ls));
            },
            None => {
                assert((o.printed + ls.drop_last()).push(ls.last()) =~= o.printed + ls);
            },
        }
    }
}

impl Output {
    /// A sink with no active buffer and nothing printed.
    pub fn new() -> (o: Output)
        ensures
            o@.buffer is None,
            o@.printed == Seq::<Seq<char>>::empty(),
    {
        let o = Output { buffer: None, printed: Vec::new() };
        proof {
            assert(o@.printed =~= Seq::<Seq<char>>::empty());
        }
        o
    }
}

/// Starts collecting lines into a fresh, empty buffer.
pub fn start_buffering(o: &mut Output)
    ensures
        final(o)@.buffer == Some(Seq::<char>::empty()),
        final(o)@.printed == old(o)@.printed,
{
    o.buffer = Some(String::new());
}

/// Ends buffering and returns what the buffer collected (empty when none was active).
pub fn flush_buffer(o: &mut Output) -> (r: String)
    ensures
        r@ == match old(o)@.buffer {
            Some(b) => b,
            None => Seq::<char>::empty(),
        },
        final(o)@.buffer is None,
        final(o)@.printed == old(o)@.printed,
{
    match o.buffer.take() {
        Some(b) => b,
        None => String::new(),
    }
}

/// Lines written after buffering starts and before the flush are what the
/// flush returns, each followed by a newline, and none reaches the terminal.
pub proof fn lemma_buffer_collects(printed: Seq<Seq<char>>, ls: Seq<Seq<char>>)
    ensures
        write_lines(OutputView { buffer: Some(Seq::empty()), printed }, ls) == (OutputView {
            buffer: Some(buffered_text(ls)),
            printed,
        }),
{
    let o = OutputView { buffer: Some(Seq::empty()), printed };
    lemma_write_lines_effect(o, ls);
    assert(Seq::<char>::empty() + buffered_text(ls) =~= buffered_text(ls));
}

/// The effect of a line printed straight to the terminal, past any buffer.
pub open spec fn print_direct_line(o: OutputView, l: Seq<char>) -> OutputView {
    OutputView { buffer: o.buffer, printed: o.printed.push(l) }
}

/// Prints a line straight to the terminal, whether or not a buffer is active.
pub fn print_direct(o: &mut Output, msg: &str)
    ensures
        final(o)@ == print_direct_line(old(o)@, msg@),
{
    let ghost o0 = o@;
    o.printed.push(msg.to_string());
    proof {
        assert(o@.printed =~= o0.printed.push(msg@));
    }
}

/// Writes a line to the buffer (if active) or to the terminal lines.
pub fn out_chars(o: &mut Output, msg: &[char])
    ensures
        final(o)@ == write_line(old(o)@, msg@),
{
    let ghost old_o = o@;
    let s = string_of(msg);
    match o.buffer.take() {
        Some(mut b) => {
            b.append(s.as_str());
            push_char(&mut b, '\n');
            o.buffer = Some(b);
        },
        None => {
            o.printed.push(s);
            proof {
                assert(o@.printed =~= old_o.printed.push(msg@));
            }
        },
    }
}

/// Writes a line to the buffer (if active) or to the terminal lines.
pub fn out(o: &mut Output, msg: &str)
    ensures
        final(o)@ == write_line(old(o)@, msg@),
{
    let m = chars_of(msg);
    out_chars(o, &m);
}

/// The three lines of a boxed section header.
pub open spec fn section_header_lines(title: Seq<char>) -> Seq<Seq<char>> {
    let line = repeat('═', 60);
    seq![
        "\n\x1b[1;36m╔"@ + line + "╗\x1b[0m"@,
        "\x1b[1;36m║\x1b[0m \x1b[1;37m"@ + pad_right(title, 58) + "\x1b[0m \x1b[1;36m║\x1b[0m"@,
        "\x1b[1;36m╚"@ + line + "╝\x1b[0m"@,
    ]
}

pub fn print_section_header(o: &mut Output, title: &str)
    ensures
        final(o)@ == write_lines(old(o)@, section_header_lines(title@)),
{
    let ghost o0 = o@;
    let t = chars_of(title);
    let mut l1: Vec<char> = Vec::new();
    extend_str(&mut l1, "\n\x1b[1;36m╔");
    repeat_exec(&mut l1, '═', 60);
    extend_str(&mut l1, "╗\x1b[0m");
    out_chars(o, &l1);
    let mut l2: Vec<char> = Vec::new();
    extend_str(&mut l2, "\x1b[1;36m║\x1b[0m \x1b[1;37m");
    pad_right_exec(&mut l2, &t, 58);
    extend_str(&mut l2, "\x1b[0m \x1b[1;36m║\x1b[0m");
    out_chars(o, &l2);
    let mut l3: Vec<char> = Vec::new();
    extend_str(&mut l3, "\x1b[1;36m╚");
    repeat_exec(&mut l3, '═', 60);
    extend_str(&mut l3, "╝\x1b[0m");
    out_chars(o, &l3);
    proof {
        let ls = section_header_lines(title@);
        assert(ls =~= seq![l1@].push(l2@).push(l3@));
        lemma_write_lines_one(o0, l1@);
        lemma_write_lines_push(o0, seq![l1@], l2@);
        lemma_write_lines_push(o0, seq![l1@].push(l2@), l3@);
    }
}

/// The two lines of a sub-header.
pub open spec fn sub_header_lines(title: Seq<char>) -> Seq<Seq<char>> {
    seq!["\n  \x1b[1;33m▸ "@ + title + "\x1b[0m"@, "  "@ + repeat('─', 50)]
}

pub fn print_sub_header(o: &mut Output, title: &str)
    ensures
        final(o)@ == write_lines(old(o)@, sub_header_lines(title@)),
{
    let ghost o0 = o@;
    let mut l1: Vec<char> = Vec::new();
    extend_str(&mut l1, "\n  \x1b[1;33m▸ ");
    extend_str(&mut l1, title);
    extend_str(&mut l1, "\x1b[0m");
    out_chars(o, &l1);
    let mut l2: Vec<char> = Vec::new();
    extend_str(&mut l2, "  ");
    repeat_exec(&mut l2, '─', 50);
    out_chars(o, &l2);
    proof {
        let ls = sub_header_lines(title@);
        assert(ls =~= seq![l1@].push(l2@));
        lemma_write_lines_one(o0, l1@);
        lemma_write_lines_push(o0, seq![l1@], l2@);
    }
}

/// The line of a summary statistic.
pub open spec fn summary_stat_line(label: Seq<char>, value: Seq<char>) -> Seq<char> {
    "    \x1b[1m"@ + label + ":\x1b[0m "@ + value
}

pub fn print_summary_stat(o: &mut Output, label: &str, value: &str)
    ensures
        final(o)@ == write_line(old(o)@, summary_stat_line(label@, value@)),
{
    let mut l: Vec<char> = Vec::new();
    extend_str(&mut l, "    \x1b[1m");
    extend_str(&mut l, label);
    extend_str(&mut l, ":\x1b[0m ");
    extend_str(&mut l, value);
    out_chars(o, &l);
}

/// The line of a warning.
pub open spec fn warning_line(msg: Seq<char>) -> Seq<char> {
    "    \x1b[1;31m⚠  "@ + msg + "\x1b[0m"@
}

pub fn print_warning(o: &mut Output, msg: &str)
    ensures
        final(o)@ == write_line(old(o)@, warning_line(msg@)),
{
    let mut l: Vec<char> = Vec::new();
    extend_str(&mut l, "    \x1b[1;31m⚠  ");
    extend_str(&mut l, msg);
    extend_str(&mut l, "\x1b[0m");
    out_chars(o, &l);
}

/// The line of a success message.
pub open spec fn ok_line(msg: Seq<char>) -> Seq<char> {
    "    \x1b[1;32m✓  "@ + msg + "\x1b[0m"@
}

pub fn print_ok(o: &mut Output, msg: &str)
    ensures
        final(o)@ == write_line(old(o)@, ok_line(msg@)),
{
    let mut l: Vec<char> = Vec::new();
    extend_str(&mut l, "    \x1b[1;32m✓  ");
    extend_str(&mut l, msg);
    extend_str(&mut l, "\x1b[0m");
    out_chars(o, &l);
}

/// The line of an informational message.
pub open spec fn info_line(msg: Seq<char>) -> Seq<char> {
    "    \x1b[2m"@ + msg + "\x1b[0m"@
}

pub fn print_info(o: &mut Output, msg: &str)
    ensures
        final(o)@ == write_line(old(o)@, info_line(msg@)),
{
    let mut l: Vec<char> = Vec::new();
    extend_str(&mut l, "    \x1b[2m");
    extend_str(&mut l, msg);
    extend_str(&mut l, "\x1b[0m");
    out_chars(o, &l);
}


/// The line shown for an empty chart or table.
pub open spec fn no_data_line() -> Seq<char> {
    "    \x1b[2m(no data)\x1b[0m"@
}

/// Writing the lines `ls[0..i+1]` after `ls[0..i]`.
pub proof fn lemma_write_lines_take(o: OutputView, ls: Seq<Seq<char>>, i: int)
    requires
        0 <= i < ls.len(),
    ensures
        write_lines(o, ls.take(i + 1)) == write_line(write_lines(o, ls.take(i)), ls[i]),
{
    assert(ls.take(i + 1).drop_last() == ls.take(i));
}

/// The largest value among the first `n` items.
pub open spec fn max_count(items: Seq<(String, usize)>, n: int) -> nat
    decreases n,
{
    if n <= 0 {
        0
    } else {
        let m = max_count(items, n - 1);
        if items[n - 1].1 > m {
            items[n - 1].1 as nat
        } else {
            m
        }
    }
}

/// The value a chart scales bars against: the largest value, at least 1.
pub open spec fn chart_max(items: Seq<(String, usize)>) -> nat {
    let m = max_count(items, items.len() as int);
    if m > 1 {
        m
    } else {
        1
    }
}

/// The largest label length, in bytes, among the first `n` items.
pub open spec fn max_label_bytes(items: Seq<(String, usize)>, n: int) -> nat
    decreases n,
{
    if n <= 0 {
        0
    } else {
        let m = max_label_bytes(items, n - 1);
        if utf8_len(items[n - 1].0@) > m {
            utf8_len(items[n - 1].0@)
        } else {
            m
        }
    }
}

/// The label column width of a chart: the longest label, at most 30 bytes.
pub open spec fn chart_label_width(items: Seq<(String, usize)>) -> nat {
    let m = max_label_bytes(items, items.len() as int);
    if m < 30 {
        m
    } else {
        30
    }
}

/// A label longer than `max` bytes is cut to its first `max - 1` bytes and an ellipsis.
pub open spec fn truncate_label(label: Seq<char>, max: nat) -> Seq<char> {
    if utf8_len(label) > max {
        byte_prefix(label, max - 1) + seq!['…']
    } else {
        label
    }
}

/// Bar length for `value` against `max`: `value / max` of the full width, rounded down.
pub open spec fn bar_width(value: nat, max: nat) -> nat {
    (value * 40 / max) as nat
}

/// One line of a bar chart.
pub open spec fn bar_line(
    label: Seq<char>,
    value: nat,
    max: nat,
    width: nat,
    color: Seq<char>,
) -> Seq<char> {
    "    "@ + pad_right(truncate_label(label, 30), width) + " "@ + color + repeat(
        '█',
        bar_width(value, max),
    ) + "\x1b[0m "@ + decimal(value)
}

/// The lines of a bar chart.
pub open spec fn bar_chart_lines(items: Seq<(String, usize)>, color: Seq<char>) -> Seq<Seq<char>> {
    if items.len() == 0 {
        seq![no_data_line()]
    } else {
        Seq::new(
            items.len(),
            |i: int|
                bar_line(
                    items[i].0@,
                    items[i].1 as nat,
                    chart_max(items),
                    chart_label_width(items),
                    color,
                ),
        )
    }
}

/// Every label longer than `max` bytes can be cut at byte `max - 1`.
pub open spec fn labels_cuttable(items: Seq<(String, usize)>, max: nat) -> bool {
    forall|i: int|
        0 <= i < items.len() && utf8_len(#[trigger] items[i].0@) > max ==> is_boundary(
            items[i].0@,
            max - 1,
        )
}

fn truncate_label_exec(label: &[char], max: usize) -> (r: Vec<char>)
    requires
        1 <= max < 1000,
        utf8_len(label@) > max ==> is_boundary(label@, max - 1),
    ensures
        r@ == truncate_label(label@, max as nat),
{
    let n = utf8_len_capped_exec(label, max + 1);
    if n > max {
        let mut r = byte_prefix_exec(label, max - 1);
        r.push('…');
        proof {
            assert(r@ =~= byte_prefix(label@, max - 1) + seq!['…']);
        }
        r
    } else {
        slice_all(label)
    }
}

fn slice_all(v: &[char]) -> (r: Vec<char>)
    ensures
        r@ == v@,
{
    let mut r: Vec<char> = Vec::new();
    extend(&mut r, v);
    r
}

/// Prints a horizontal bar chart, one line per item.
pub fn print_bar_chart(o: &mut Output, items: &[(String, usize)], color: &str)
    requires
        labels_cuttable(items@, 30),
    ensures
        final(o)@ == write_lines(old(o)@, bar_chart_lines(items@, color@)),
{
    let ghost o0 = o@;
    if items.len() == 0 {
        let mut l: Vec<char> = Vec::new();
        extend_str(&mut l, "    \x1b[2m(no data)\x1b[0m");
        out_chars(o, &l);
        proof {
            lemma_write_lines_one(o0, no_data_line());
        }
        return;
    }
    let mut maxv: usize = 0;
    let mut maxl: usize = 0;
    let mut i: usize = 0;
    while i < items.len()
        invariant
            i <= items@.len(),
            maxv == max_count(items@, i as int),
            maxl == if max_label_bytes(items@, i as int) < 31 {
                max_label_bytes(items@, i as int)
            } else {
                31
            },
        decreases items@.len() - i,
    {
        if items[i].1 > maxv {
            maxv = items[i].1;
        }
        let lc = chars_of(items[i].0.as_str());
        let ll = utf8_len_capped_exec(&lc, 31);
        if ll > maxl {
            maxl = ll;
        }
        i += 1;
    }
    if maxv < 1 {
        maxv = 1;
    }
    if maxl > 30 {
        maxl = 30;
    }
    let ghost ls = bar_chart_lines(items@, color@);
    let cc = chars_of(color);
    let mut k: usize = 0;
    proof {
        assert(ls.take(0) =~= Seq::<Seq<char>>::empty());
    }
    while k < items.len()
        invariant
            k <= items@.len(),
            items@.len() > 0,
            ls == bar_chart_lines(items@, color@),
            ls.len() == items@.len(),
            cc@ == color@,
            maxv == chart_max(items@),
            maxv >= 1,
            maxl == chart_label_width(items@),
            labels_cuttable(items@, 30),
            o@ == write_lines(o0, ls.take(k as int)),
        decreases items@.len() - k,
    {
        let label = chars_of(items[k].0.as_str());
        let value = items[k].1;
        proof {
            assert(utf8_len(items@[k as int].0@) > 30 ==> is_boundary(items@[k as int].0@, 29));
        }
        let t = truncate_label_exec(&label, 30);
        let mut l: Vec<char> = Vec::new();
        extend_str(&mut l, "    ");
        pad_right_exec(&mut l, &t, maxl);
        extend_str(&mut l, " ");
        extend(&mut l, &cc);
        let w = ((value as u128) * 40 / (maxv as u128)) as usize;
        proof {
            assert(value <= maxv) by {
                lemma_max_count_bound(items@, items@.len() as int, k as int);
            }
            assert((value as int) * 40 / (maxv as int) <= 40) by (nonlinear_arith)
                requires
                    value <= maxv,
                    maxv >= 1,
            ;
        }
        repeat_exec(&mut l, '█', w);
        extend_str(&mut l, "\x1b[0m ");
        let d = decimal_exec(value);
        extend(&mut l, &d);
        out_chars(o, &l);
        proof {
            assert(l@ == bar_line(items@[k as int].0@, value as nat, maxv as nat, maxl as nat, color@));
            lemma_write_lines_take(o0, ls, k as int);
        }
        k += 1;
    }
    proof {
        assert(ls.take(ls.len() as int) == ls);
    }
}

proof fn lemma_max_count_bound(items: Seq<(String, usize)>, n: int, k: int)
    requires
        0 <= k < n <= items.len(),
    ensures
        items[k].1 <= max_count(items, n),
    decreases n,
{
    if k < n - 1 {
        lemma_max_count_bound(items, n - 1, k);
    }
}


/// The eight sparkline levels, lowest first.
pub open spec fn spark_char(idx: nat) -> char {
    if idx == 0 {
        '▁'
    } else if idx == 1 {
        '▂'
    } else if idx == 2 {
        '▃'
    } else if idx == 3 {
        '▄'
    } else if idx == 4 {
        '▅'
    } else if idx == 5 {
        '▆'
    } else if idx == 6 {
        '▇'
    } else {
        '█'
    }
}

fn spark_char_exec(idx: usize) -> (c: char)
    ensures
        c == spark_char(idx as nat),
{
    if idx == 0 {
        '▁'
    } else if idx == 1 {
        '▂'
    } else if idx == 2 {
        '▃'
    } else if idx == 3 {
        '▄'
    } else if idx == 4 {
        '▅'
    } else if idx == 5 {
        '▆'
    } else if idx == 6 {
        '▇'
    } else {
        '█'
    }
}

/// The sparkline level of `value` against `max`: `value / max` of 7, rounded down, at most 7.
pub open spec fn spark_level(value: nat, max: nat) -> nat {
    let l = (value * 7 / max) as nat;
    if l > 7 {
        7
    } else {
        l
    }
}

/// A label cut to its first three bytes.
pub open spec fn short_label(label: Seq<char>) -> Seq<char> {
    if utf8_len(label) > 3 {
        byte_prefix(label, 3)
    } else {
        label
    }
}

/// The two lines of a sparkline (none for no data).
pub open spec fn sparkline_lines(data: Seq<(String, usize)>) -> Seq<Seq<char>> {
    if data.len() == 0 {
        Seq::empty()
    } else {
        let bars = Seq::new(
            data.len(),
            |i: int| seq![' ', spark_char(spark_level(data[i].1 as nat, chart_max(data))), ' '],
        );
        let labels = Seq::new(data.len(), |i: int| short_label(data[i].0@) + seq![' ']);
        seq![
            "    \x1b[32m"@ + concat(bars) + "\x1b[0m"@,
            "    \x1b[2m"@ + concat(labels) + "\x1b[0m"@,
        ]
    }
}

/// Labels longer than three bytes can be cut at byte 3.
pub open spec fn labels_cuttable_at_3(data: Seq<(String, usize)>) -> bool {
    forall|i: int|
        0 <= i < data.len() && utf8_len(#[trigger] data[i].0@) > 3 ==> is_boundary(data[i].0@, 3)
}

/// Prints a one-line sparkline of the values with their labels' first bytes beneath.
pub fn print_sparkline(o: &mut Output, data: &[(String, usize)])
    requires
        labels_cuttable_at_3(data@),
    ensures
        final(o)@ == write_lines(old(o)@, sparkline_lines(data@)),
{
    let ghost o0 = o@;
    if data.len() == 0 {
        return;
    }
    let mut maxv: usize = 0;
    let mut i: usize = 0;
    while i < data.len()
        invariant
            i <= data@.len(),
            maxv == max_count(data@, i as int),
        decreases data@.len() - i,
    {
        if data[i].1 > maxv {
            maxv = data[i].1;
        }
        i += 1;
    }
    if maxv < 1 {
        maxv = 1;
    }
    let ghost bars = Seq::new(
        data@.len(),
        |i: int| seq![' ', spark_char(spark_level(data@[i].1 as nat, chart_max(data@))), ' '],
    );
    let ghost labels = Seq::new(data@.len(), |i: int| short_label(data@[i].0@) + seq![' ']);
    let mut line: Vec<char> = Vec::new();
    let mut labs: Vec<char> = Vec::new();
    let mut k: usize = 0;
    proof {
        assert(bars.take(0) =~= Seq::<Seq<char>>::empty());
        assert(labels.take(0) =~= Seq::<Seq<char>>::empty());
    }
    while k < data.len()
        invariant
            k <= data@.len(),
            maxv == chart_max(data@),
            maxv >= 1,
            labels_cuttable_at_3(data@),
            bars.len() == data@.len(),
            labels.len() == data@.len(),
            bars == Seq::new(
                data@.len(),
                |i: int| seq![' ', spark_char(spark_level(data@[i].1 as nat, chart_max(data@))), ' '],
            ),
            labels == Seq::new(data@.len(), |i: int| short_label(data@[i].0@) + seq![' ']),
            line@ == concat(bars.take(k as int)),
            labs@ == concat(labels.take(k as int)),
        decreases data@.len() - k,
    {
        let value = data[k].1;
        let lvl0 = ((value as u128) * 7 / (maxv as u128)) as usize;
        proof {
            assert(value <= maxv) by {
                lemma_max_count_bound(data@, data@.len() as int, k as int);
            }
            assert((value as int) * 7 / (maxv as int) <= 7) by (nonlinear_arith)
                requires
                    value <= maxv,
                    maxv >= 1,
            ;
        }
        let lvl = if lvl0 > 7 {
            7
        } else {
            lvl0
        };
        line.push(' ');
        line.push(spark_char_exec(lvl));
        line.push(' ');
        let label = chars_of(data[k].0.as_str());
        proof {
            assert(utf8_len(data@[k as int].0@) > 3 ==> is_boundary(data@[k as int].0@, 3));
        }
        let n = utf8_len_capped_exec(&label, 4);
        if n > 3 {
            let sh = byte_prefix_exec(&label, 3);
            extend(&mut labs, &sh);
        } else {
            extend(&mut labs, &label);
        }
        labs.push(' ');
        proof {
            lemma_concat_take(bars, k as int);
            lemma_concat_take(labels, k as int);
            assert(line@ =~= concat(bars.take(k + 1)));
            assert(labs@ =~= concat(labels.take(k + 1)));
        }
        k += 1;
    }
    proof {
        assert(bars.take(bars.len() as int) == bars);
        assert(labels.take(labels.len() as int) == labels);
    }
    let mut l1: Vec<char> = Vec::new();
    extend_str(&mut l1, "    \x1b[32m");
    extend(&mut l1, &line);
    extend_str(&mut l1, "\x1b[0m");
    out_chars(o, &l1);
    let mut l2: Vec<char> = Vec::new();
    extend_str(&mut l2, "    \x1b[2m");
    extend(&mut l2, &labs);
    extend_str(&mut l2, "\x1b[0m");
    out_chars(o, &l2);
    proof {
        let ls = sparkline_lines(data@);
        assert(ls =~= seq![l1@].push(l2@));
        lemma_write_lines_one(o0, l1@);
        lemma_write_lines_push(o0, seq![l1@], l2@);
    }
}


/// The byte length of cell `i` of a row (0 when the row is shorter).
pub open spec fn cell_bytes(row: Vec<String>, i: int) -> nat {
    if 0 <= i < row@.len() {
        utf8_len(row@[i]@)
    } else {
        0
    }
}

/// The largest byte length of cell `i` over the first `n` rows.
pub open spec fn max_cell_bytes(rows: Seq<Vec<String>>, i: int, n: int) -> nat
    decreases n,
{
    if n <= 0 {
        0
    } else {
        let m = max_cell_bytes(rows, i, n - 1);
        if cell_bytes(rows[n - 1], i) > m {
            cell_bytes(rows[n - 1], i)
        } else {
            m
        }
    }
}

/// The width of column `i`: its widest entry (header or cell), at most 50 bytes.
pub open spec fn col_width(headers: Seq<&str>, rows: Seq<Vec<String>>, i: int) -> nat {
    let h = utf8_len(headers[i]@);
    let c = max_cell_bytes(rows, i, rows.len() as int);
    let m = if h > c {
        h
    } else {
        c
    };
    if m < 50 {
        m
    } else {
        50
    }
}

/// The header line of a table.
pub open spec fn table_header_line(headers: Seq<&str>, rows: Seq<Vec<String>>) -> Seq<char> {
    "    "@ + concat(
        Seq::new(
            headers.len(),
            |i: int|
                "\x1b[1m"@ + pad_right(headers[i]@, col_width(headers, rows, i)) + "\x1b[0m  "@,
        ),
    )
}

/// The separator line under a table header.
pub open spec fn table_sep_line(headers: Seq<&str>, rows: Seq<Vec<String>>) -> Seq<char> {
    "    "@ + join(
        Seq::new(headers.len(), |i: int| repeat('─', col_width(headers, rows, i))),
        "──"@,
    )
}

/// The width a row's cell `j` is padded to (10 beyond the header's columns).
pub open spec fn cell_width(headers: Seq<&str>, rows: Seq<Vec<String>>, j: int) -> nat {
    if j < headers.len() {
        col_width(headers, rows, j)
    } else {
        10
    }
}

/// One row line of a table.
pub open spec fn table_row_line(
    headers: Seq<&str>,
    rows: Seq<Vec<String>>,
    row: Vec<String>,
) -> Seq<char> {
    "    "@ + concat(
        Seq::new(
            row@.len(),
            |j: int|
                pad_right(truncate_label(row@[j]@, 50), cell_width(headers, rows, j)) + "  "@,
        ),
    )
}

/// The lines of a table.
pub open spec fn table_lines(headers: Seq<&str>, rows: Seq<Vec<String>>) -> Seq<Seq<char>> {
    if rows.len() == 0 {
        seq![no_data_line()]
    } else {
        seq![table_header_line(headers, rows), table_sep_line(headers, rows)] + Seq::new(
            rows.len(),
            |r: int| table_row_line(headers, rows, rows[r]),
        )
    }
}

/// Every cell longer than 50 bytes can be cut at byte 49.
pub open spec fn cells_cuttable(rows: Seq<Vec<String>>) -> bool {
    forall|r: int, j: int|
        0 <= r < rows.len() && 0 <= j < rows[r]@.len() && utf8_len(#[trigger] rows[r]@[j]@) > 50
            ==> is_boundary(rows[r]@[j]@, 49)
}

fn column_width_exec(headers: &[&str], rows: &[Vec<String>], i: usize) -> (w: usize)
    requires
        i < headers@.len(),
    ensures
        w == col_width(headers@, rows@, i as int),
{
    let hc = chars_of(headers[i]);
    let mut m = utf8_len_capped_exec(&hc, 51);
    let mut r: usize = 0;
    while r < rows.len()
        invariant
            r <= rows@.len(),
            i < headers@.len(),
            m == ({
                let h = utf8_len(headers@[i as int]@);
                let c = max_cell_bytes(rows@, i as int, r as int);
                let x = if h > c {
                    h
                } else {
                    c
                };
                if x < 51 {
                    x
                } else {
                    51
                }
            }),
        decreases rows@.len() - r,
    {
        if i < rows[r].len() {
            let cc = chars_of(rows[r][i].as_str());
            let cl = utf8_len_capped_exec(&cc, 51);
            if cl > m {
                m = cl;
            }
        }
        r += 1;
    }
    if m > 50 {
        50
    } else {
        m
    }
}

/// Prints a table: a header line, a separator, then one line per row.
pub fn print_table(o: &mut Output, headers: &[&str], rows: &[Vec<String>])
    requires
        cells_cuttable(rows@),
    ensures
        final(o)@ == write_lines(old(o)@, table_lines(headers@, rows@)),
{
    let ghost o0 = o@;
    if rows.len() == 0 {
        let mut l: Vec<char> = Vec::new();
        extend_str(&mut l, "    \x1b[2m(no data)\x1b[0m");
        out_chars(o, &l);
        proof {
            lemma_write_lines_one(o0, no_data_line());
        }
        return;
    }
    let mut widths: Vec<usize> = Vec::new();
    let mut i: usize = 0;
    while i < headers.len()
        invariant
            i <= headers@.len(),
            widths@.len() == i,
            forall|j: int| 0 <= j < i ==> widths@[j] == col_width(headers@, rows@, j),
        decreases headers@.len() - i,
    {
        let w = column_width_exec(headers, rows, i);
        widths.push(w);
        i += 1;
    }
    let ghost hcells = Seq::new(
        headers@.len(),
        |i: int|
            "\x1b[1m"@ + pad_right(headers@[i]@, col_width(headers@, rows@, i)) + "\x1b[0m  "@,
    );
    let mut hl: Vec<char> = Vec::new();
    extend_str(&mut hl, "    ");
    let mut k: usize = 0;
    proof {
        assert(hcells.take(0) =~= Seq::<Seq<char>>::empty());
    }
    while k < headers.len()
        invariant
            k <= headers@.len(),
            widths@.len() == headers@.len(),
            forall|j: int| 0 <= j < headers@.len() ==> widths@[j] == col_width(headers@, rows@, j),
            hcells == Seq::new(
                headers@.len(),
                |i: int|
                    "\x1b[1m"@ + pad_right(headers@[i]@, col_width(headers@, rows@, i))
                        + "\x1b[0m  "@,
            ),
            hl@ == "    "@ + concat(hcells.take(k as int)),
        decreases headers@.len() - k,
    {
        let ghost before = hl@;
        let hc = chars_of(headers[k]);
        extend_str(&mut hl, "\x1b[1m");
        pad_right_exec(&mut hl, &hc, widths[k]);
        extend_str(&mut hl, "\x1b[0m  ");
        proof {
            lemma_concat_take(hcells, k as int);
            assert(hl@ =~= before + hcells[k as int]);
        }
        k += 1;
    }
    proof {
        assert(hcells.take(hcells.len() as int) == hcells);
    }
    out_chars(o, &hl);
    let ghost sparts = Seq::new(headers@.len(), |i: int| repeat('─', col_width(headers@, rows@, i)));
    let mut sep: Vec<char> = Vec::new();
    let mut k: usize = 0;
    proof {
        assert(sparts.take(0) =~= Seq::<Seq<char>>::empty());
    }
    while k < headers.len()
        invariant
            k <= headers@.len(),
            widths@.len() == headers@.len(),
            forall|j: int| 0 <= j < headers@.len() ==> widths@[j] == col_width(headers@, rows@, j),
            sparts == Seq::new(
                headers@.len(),
                |i: int| repeat('─', col_width(headers@, rows@, i)),
            ),
            sep@ == join(sparts.take(k as int), "──"@),
        decreases headers@.len() - k,
    {
        let ghost before = sep@;
        if k > 0 {
            extend_str(&mut sep, "──");
        }
        repeat_exec(&mut sep, '─', widths[k]);
        proof {
            lemma_join_take(sparts, "──"@, k as int);
            if k == 0 {
                assert(sep@ =~= sparts[0]);
            } else {
                assert(sep@ =~= before + "──"@ + sparts[k as int]);
            }
        }
        k += 1;
    }
    proof {
        assert(sparts.take(sparts.len() as int) == sparts);
    }
    let mut sl: Vec<char> = Vec::new();
    extend_str(&mut sl, "    ");
    extend(&mut sl, &sep);
    out_chars(o, &sl);
    let ghost ls = table_lines(headers@, rows@);
    proof {
        assert(ls[0] == hl@);
        assert(ls[1] == sl@);
        assert(ls.take(2) =~= seq![hl@].push(sl@));
        lemma_write_lines_one(o0, hl@);
        lemma_write_lines_push(o0, seq![hl@], sl@);
    }
    let mut r: usize = 0;
    while r < rows.len()
        invariant
            r <= rows@.len(),
            rows@.len() > 0,
            ls == table_lines(headers@, rows@),
            ls.len() == rows@.len() + 2,
            widths@.len() == headers@.len(),
            forall|j: int| 0 <= j < headers@.len() ==> widths@[j] == col_width(headers@, rows@, j),
            cells_cuttable(rows@),
            o@ == write_lines(o0, ls.take(r + 2)),
        decreases rows@.len() - r,
    {
        let row = &rows[r];
        let ghost parts = Seq::new(
            row@.len(),
            |j: int| pad_right(truncate_label(row@[j]@, 50), cell_width(headers@, rows@, j)) + "  "@,
        );
        let mut line: Vec<char> = Vec::new();
        extend_str(&mut line, "    ");
        let mut j: usize = 0;
        proof {
            assert(parts.take(0) =~= Seq::<Seq<char>>::empty());
        }
        while j < row.len()
            invariant
                j <= row@.len(),
                r < rows@.len(),
                row == rows@[r as int],
                widths@.len() == headers@.len(),
                forall|q: int|
                    0 <= q < headers@.len() ==> widths@[q] == col_width(headers@, rows@, q),
                cells_cuttable(rows@),
                parts == Seq::new(
                    row@.len(),
                    |j: int|
                        pad_right(truncate_label(row@[j]@, 50), cell_width(headers@, rows@, j))
                            + "  "@,
                ),
                line@ == "    "@ + concat(parts.take(j as int)),
            decreases row@.len() - j,
        {
            let ghost before = line@;
            let w = if j < widths.len() {
                widths[j]
            } else {
                10
            };
            let cell = chars_of(row[j].as_str());
            proof {
                assert(utf8_len(rows@[r as int]@[j as int]@) > 50 ==> is_boundary(
                    rows@[r as int]@[j as int]@,
                    49,
                ));
            }
            let t = truncate_label_exec(&cell, 50);
            pad_right_exec(&mut line, &t, w);
            extend_str(&mut line, "  ");
            proof {
                lemma_concat_take(parts, j as int);
                assert(line@ =~= before + parts[j as int]);
            }
            j += 1;
        }
        proof {
            assert(parts.take(parts.len() as int) == parts);
            assert(line@ == ls[r + 2]);
        }
        out_chars(o, &line);
        proof {
            lemma_write_lines_take(o0, ls, r + 2);
        }
        r += 1;
    }
    proof {
        assert(ls.take(ls.len() as int) == ls);
    }
}


/// Whether [`print_table`] can print these rows: every cell longer than 50
/// bytes can be cut at byte 49.
pub fn table_printable(rows: &[Vec<String>]) -> (r: bool)
    ensures
        r == cells_cuttable(rows@),
{
    let mut r: usize = 0;
    while r < rows.len()
        invariant
            r <= rows@.len(),
            forall|a: int, j: int|
                0 <= a < r && 0 <= j < rows@[a]@.len() && utf8_len(#[trigger] rows@[a]@[j]@) > 50
                    ==> is_boundary(rows@[a]@[j]@, 49),
        decreases rows@.len() - r,
    {
        let mut j: usize = 0;
        while j < rows[r].len()
            invariant
                r < rows@.len(),
                j <= rows@[r as int]@.len(),
                forall|a: int, k: int|
                    0 <= a < r && 0 <= k < rows@[a]@.len() && utf8_len(#[trigger] rows@[a]@[k]@)
                        > 50 ==> is_boundary(rows@[a]@[k]@, 49),
                forall|k: int|
                    0 <= k < j && utf8_len(#[trigger] rows@[r as int]@[k]@) > 50 ==> is_boundary(
                        rows@[r as int]@[k]@,
                        49,
                    ),
            decreases rows@[r as int]@.len() - j,
        {
            let c = chars_of(rows[r][j].as_str());
            if utf8_len_capped_exec(&c, 51) > 50 && !is_boundary_exec(&c, 49) {
                return false;
            }
            j += 1;
        }
        r += 1;
    }
    true
}


/// The cell texts of table rows.
pub open spec fn rows_view(rows: Seq<Vec<String>>) -> Seq<Seq<Seq<char>>> {
    Seq::new(rows.len(), |r: int| Seq::new(rows[r]@.len(), |j: int| rows[r]@[j]@))
}

/// The texts of string slices.
pub open spec fn headers_view(headers: Seq<&str>) -> Seq<Seq<char>> {
    Seq::new(headers.len(), |i: int| headers[i]@)
}

/// [`cell_bytes`] over cell texts.
pub open spec fn cell_bytes_v(row: Seq<Seq<char>>, i: int) -> nat {
    if 0 <= i < row.len() {
        utf8_len(row[i])
    } else {
        0
    }
}

/// [`max_cell_bytes`] over cell texts.
pub open spec fn max_cell_bytes_v(rows: Seq<Seq<Seq<char>>>, i: int, n: int) -> nat
    decreases n,
{
    if n <= 0 {
        0
    } else {
        let m = max_cell_bytes_v(rows, i, n - 1);
        if cell_bytes_v(rows[n - 1], i) > m {
            cell_bytes_v(rows[n - 1], i)
        } else {
            m
        }
    }
}

/// [`col_width`] over texts.
pub open spec fn col_width_v(headers: Seq<Seq<char>>, rows: Seq<Seq<Seq<char>>>, i: int) -> nat {
    let h = utf8_len(headers[i]);
    let c = max_cell_bytes_v(rows, i, rows.len() as int);
    let m = if h > c {
        h
    } else {
        c
    };
    if m < 50 {
        m
    } else {
        50
    }
}

/// [`cell_width`] over texts.
pub open spec fn cell_width_v(headers: Seq<Seq<char>>, rows: Seq<Seq<Seq<char>>>, j: int) -> nat {
    if j < headers.len() {
        col_width_v(headers, rows, j)
    } else {
        10
    }
}

/// The lines of a table, over the texts of its headers and cells.
pub open spec fn table_lines_v(headers: Seq<Seq<char>>, rows: Seq<Seq<Seq<char>>>) -> Seq<Seq<char>> {
    if rows.len() == 0 {
        seq![no_data_line()]
    } else {
        let header = "    "@ + concat(
            Seq::new(
                headers.len(),
                |i: int|
                    "\x1b[1m"@ + pad_right(headers[i], col_width_v(headers, rows, i)) + "\x1b[0m  "@,
            ),
        );
        let sep = "    "@ + join(
            Seq::new(headers.len(), |i: int| repeat('─', col_width_v(headers, rows, i))),
            "──"@,
        );
        seq![header, sep] + Seq::new(
            rows.len(),
            |r: int|
                "    "@ + concat(
                    Seq::new(
                        rows[r].len(),
                        |j: int|
                            pad_right(truncate_label(rows[r][j], 50), cell_width_v(headers, rows, j))
                                + "  "@,
                    ),
                ),
        )
    }
}

/// [`cells_cuttable`] over cell texts.
pub open spec fn cells_cuttable_v(rows: Seq<Seq<Seq<char>>>) -> bool {
    forall|r: int, j: int|
        0 <= r < rows.len() && 0 <= j < rows[r].len() && utf8_len(#[trigger] rows[r][j]) > 50
            ==> is_boundary(rows[r][j], 49)
}

proof fn lemma_max_cell_bytes_view(rows: Seq<Vec<String>>, i: int, n: int)
    requires
        n <= rows.len(),
    ensures
        max_cell_bytes(rows, i, n) == max_cell_bytes_v(rows_view(rows), i, n),
    decreases n,
{
    if n > 0 {
        lemma_max_cell_bytes_view(rows, i, n - 1);
        assert(cell_bytes(rows[n - 1], i) == cell_bytes_v(rows_view(rows)[n - 1], i));
    }
}

/// The table specification over rows equals the one over their texts.
pub proof fn lemma_table_view(headers: Seq<&str>, rows: Seq<Vec<String>>)
    ensures
        table_lines(headers, rows) == table_lines_v(headers_view(headers), rows_view(rows)),
        cells_cuttable(rows) == cells_cuttable_v(rows_view(rows)),
{
    let hv = headers_view(headers);
    let rv = rows_view(rows);
    assert forall|i: int| 0 <= i < headers.len() implies col_width(headers, rows, i)
        == col_width_v(hv, rv, i) by {
        lemma_max_cell_bytes_view(rows, i, rows.len() as int);
    }
    assert forall|j: int| 0 <= j implies cell_width(headers, rows, j) == cell_width_v(hv, rv, j) by {
        if j < headers.len() {
            lemma_max_cell_bytes_view(rows, j, rows.len() as int);
        }
    }
    if rows.len() > 0 {
        let a = table_lines(headers, rows);
        let b = table_lines_v(hv, rv);
        assert(Seq::new(
            headers.len(),
            |i: int|
                "\x1b[1m"@ + pad_right(headers[i]@, col_width(headers, rows, i)) + "\x1b[0m  "@,
        ) =~= Seq::new(
            hv.len(),
            |i: int| "\x1b[1m"@ + pad_right(hv[i], col_width_v(hv, rv, i)) + "\x1b[0m  "@,
        ));
        assert(Seq::new(headers.len(), |i: int| repeat('─', col_width(headers, rows, i))) =~= Seq::new(
            hv.len(),
            |i: int| repeat('─', col_width_v(hv, rv, i)),
        ));
        assert forall|r: int| 0 <= r < rows.len() implies table_row_line(headers, rows, rows[r])
            == b[r + 2] by {
            assert(Seq::new(
                rows[r]@.len(),
                |j: int|
                    pad_right(truncate_label(rows[r]@[j]@, 50), cell_width(headers, rows, j))
                        + "  "@,
            ) =~= Seq::new(
                rv[r].len(),
                |j: int| pad_right(truncate_label(rv[r][j], 50), cell_width_v(hv, rv, j)) + "  "@,
            ));
        }
        assert(a =~= b);
    }
    assert(cells_cuttable(rows) == cells_cuttable_v(rv)) by {
        if cells_cuttable(rows) {
            assert forall|r: int, j: int|
                0 <= r < rv.len() && 0 <= j < rv[r].len() && utf8_len(#[trigger] rv[r][j]) > 50
                    implies is_boundary(rv[r][j], 49) by {
                assert(rv[r][j] == rows[r]@[j]@);
            }
        }
        if cells_cuttable_v(rv) {
            assert forall|r: int, j: int|
                0 <= r < rows.len() && 0 <= j < rows[r]@.len() && utf8_len(
                    #[trigger] rows[r]@[j]@,
                ) > 50 implies is_boundary(rows[r]@[j]@, 49) by {
                assert(rv[r][j] == rows[r]@[j]@);
            }
        }
    }
}

/// Writing the lines `a` and then the lines `b` writes `a + b`.
pub proof fn lemma_write_lines_append(o: OutputView, a: Seq<Seq<char>>, b: Seq<Seq<char>>)
    ensures
        write_lines(o, a + b) == write_lines(write_lines(o, a), b),
    decreases b.len(),
{
    if b.len() == 0 {
        assert(a + b =~= a);
    } else {
        lemma_write_lines_append(o, a, b.drop_last());
        assert((a + b).drop_last() =~= a + b.drop_last());
        assert((a + b).last() == b.last());
    }
}


/// Writes each of the lines, in order.
pub fn out_all(o: &mut Output, lines: &Vec<Vec<char>>)
    ensures
        final(o)@ == write_lines(old(o)@, views(lines@)),
{
    let ghost o0 = o@;
    let ghost lv = views(lines@);
    let mut i: usize = 0;
    proof {
        assert(lv.take(0) =~= Seq::<Seq<char>>::empty());
    }
    while i < lines.len()
        invariant
            i <= lines@.len(),
            lv == views(lines@),
            o@ == write_lines(o0, lv.take(i as int)),
        decreases lines@.len() - i,
    {
        out_chars(o, &lines[i]);
        proof {
            lemma_write_lines_take(o0, lv, i as int);
        }
        i += 1;
    }
    proof {
        assert(lv.take(lines@.len() as int) =~= lv);
    }
}


/// Prints a table; its lines stated over the texts of headers and cells.
pub fn print_table_rows(o: &mut Output, headers: &[&str], rows: &[Vec<String>])
    requires
        cells_cuttable_v(rows_view(rows@)),
    ensures
        final(o)@ == write_lines(old(o)@, table_lines_v(headers_view(headers@), rows_view(rows@))),
{
    proof {
        lemma_table_view(headers@, rows@);
    }
    print_table(o, headers, rows);
}

/// Writes `prefix` followed by each item, one line per item.
pub fn print_bullets(o: &mut Output, prefix: &str, items: &Vec<Vec<char>>)
    ensures
        final(o)@ == write_lines(old(o)@, Seq::new(items@.len(), |i: int| prefix@ + items@[i]@)),
{
    let ghost o0 = o@;
    let ghost ls = Seq::new(items@.len(), |i: int| prefix@ + items@[i]@);
    let mut i: usize = 0;
    proof {
        assert(ls.take(0) =~= Seq::<Seq<char>>::empty());
    }
    while i < items.len()
        invariant
            i <= items@.len(),
            ls == Seq::new(items@.len(), |i: int| prefix@ + items@[i]@),
            o@ == write_lines(o0, ls.take(i as int)),
        decreases items@.len() - i,
    {
        let mut l: Vec<char> = Vec::new();
        extend_str(&mut l, prefix);
        extend(&mut l, &items[i]);
        out_chars(o, &l);
        proof {
            lemma_write_lines_take(o0, ls, i as int);
        }
        i += 1;
    }
    proof {
        assert(ls.take(items@.len() as int) =~= ls);
    }
}


/// The lines, each followed by a newline.
pub fn text_of_lines(lines: &Vec<Vec<char>>) -> (r: Vec<char>)
    ensures
        r@ == buffered_text(views(lines@)),
{
    let ghost lv = views(lines@);
    let mut r: Vec<char> = Vec::new();
    let mut i: usize = 0;
    proof {
        assert(lv.take(0) =~= Seq::<Seq<char>>::empty());
    }
    while i < lines.len()
        invariant
            i <= lines@.len(),
            lv == views(lines@),
            r@ == buffered_text(lv.take(i as int)),
        decreases lines@.len() - i,
    {
        let ghost before = r@;
        extend(&mut r, &lines[i]);
        r.push('\n');
        proof {
            assert(lv.take(i + 1).drop_last() =~= lv.take(i as int));
            assert(lv.take(i + 1).last() == lines@[i as int]@);
            assert(r@ =~= before + lines@[i as int]@.push('\n'));
        }
        i += 1;
    }
    proof {
        assert(lv.take(lines@.len() as int) =~= lv);
    }
    r
}


/// Without a buffer, writing lines appends them to the printed lines.
pub proof fn lemma_write_lines_printed(o: OutputView, ls: Seq<Seq<char>>)
    requires
        o.buffer is None,
    ensures
        write_lines(o, ls).buffer is None,
        write_lines(o, ls).printed == o.printed + ls,
    decreases ls.len(),
{
    if ls.len() == 0 {
        assert(o.printed + ls =~= o.printed);
    } else {
        lemma_write_lines_printed(o, ls.drop_last());
        assert(o.printed + ls =~= (o.printed + ls.drop_last()).push(ls.last()));
    }
}

/// The lines of a table, as [`print_table`] would print them.
pub fn table_lines_exec(headers: &[&str], rows: &[Vec<String>]) -> (r: Vec<Vec<char>>)
    requires
        cells_cuttable_v(rows_view(rows@)),
    ensures
        views(r@) == table_lines_v(headers_view(headers@), rows_view(rows@)),
{
    let mut tmp = Output::new();
    let ghost o0 = tmp@;
    print_table_rows(&mut tmp, headers, rows);
    proof {
        lemma_write_lines_printed(o0, table_lines_v(headers_view(headers@), rows_view(rows@)));
        assert(o0.printed + table_lines_v(headers_view(headers@), rows_view(rows@)) =~= table_lines_v(headers_view(headers@), rows_view(rows@)));
    }
    let mut r: Vec<Vec<char>> = Vec::new();
    let mut i: usize = 0;
    while i < tmp.printed.len()
        invariant
            i <= tmp.printed@.len(),
            r@.len() == i,
            forall|k: int| 0 <= k < i ==> #[trigger] r@[k]@ == tmp.printed@[k]@,
        decreases tmp.printed@.len() - i,
    {
        r.push(chars_of(tmp.printed[i].as_str()));
        i += 1;
    }
    proof {
        assert(views(r@) =~= tmp@.printed);
    }
    r
}

/// [`summary_stat_line`].
pub fn summary_line_exec(label: &str, value: &[char]) -> (r: Vec<char>)
    ensures
        r@ == summary_stat_line(label@, value@),
{
    let mut l: Vec<char> = Vec::new();
    extend_str(&mut l, "    \x1b[1m");
    extend_str(&mut l, label);
    extend_str(&mut l, ":\x1b[0m ");
    extend(&mut l, value);
    proof {
        assert(l@ =~= summary_stat_line(label@, value@));
    }
    l
}

/// [`warning_line`].
pub fn warning_line_exec(msg: &[char]) -> (r: Vec<char>)
    ensures
        r@ == warning_line(msg@),
{
    let mut l: Vec<char> = Vec::new();
    extend_str(&mut l, "    \x1b[1;31m⚠  ");
    extend(&mut l, msg);
    extend_str(&mut l, "\x1b[0m");
    proof {
        assert(l@ =~= warning_line(msg@));
    }
    l
}

/// [`ok_line`].
pub fn ok_line_exec(msg: &str) -> (r: Vec<char>)
    ensures
        r@ == ok_line(msg@),
{
    let mut l: Vec<char> = Vec::new();
    extend_str(&mut l, "    \x1b[1;32m✓  ");
    extend_str(&mut l, msg);
    extend_str(&mut l, "\x1b[0m");
    proof {
        assert(l@ =~= ok_line(msg@));
    }
    l
}

/// [`info_line`].
pub fn info_line_exec(msg: &[char]) -> (r: Vec<char>)
    ensures
        r@ == info_line(msg@),
{
    let mut l: Vec<char> = Vec::new();
    extend_str(&mut l, "    \x1b[2m");
    extend(&mut l, msg);
    extend_str(&mut l, "\x1b[0m");
    proof {
        assert(l@ =~= info_line(msg@));
    }
    l
}

/// Appends a line.
pub fn push_line(ls: &mut Vec<Vec<char>>, l: Vec<char>)
    ensures
        views(final(ls)@) == views(old(ls)@).push(l@),
{
    ls.push(l);
    proof {
        assert(views(ls@) =~= views(old(ls)@).push(l@));
    }
}

/// Appends lines.
pub fn push_lines(ls: &mut Vec<Vec<char>>, more: Vec<Vec<char>>)
    ensures
        views(final(ls)@) == views(old(ls)@) + views(more@),
{
    let ghost l0 = views(ls@);
    let mut i: usize = 0;
    let mut more = more;
    let ghost mv = views(more@);
    while i < more.len()
        invariant
            i <= more@.len(),
            mv == views(more@),
            views(ls@) == l0 + mv.take(i as int),
        decreases more@.len() - i,
    {
        let x = crate::text::slice(&more[i], 0, more[i].len());
        proof {
            assert(more@[i as int]@.subrange(0, more@[i as int]@.len() as int) =~= more@[i as int]@);
        }
        let ghost before = views(ls@);
        ls.push(x);
        proof {
            assert(views(ls@) =~= before.push(mv[i as int]));
            assert(mv.take(i + 1) =~= mv.take(i as int).push(mv[i as int]));
        }
        i += 1;
    }
    proof {
        assert(mv.take(more@.len() as int) =~= mv);
    }
}

/// Characters of a string slice.
pub fn str_line(s: &str) -> (r: Vec<char>)
    ensures
        r@ == s@,
{
    chars_of(s)
}


/// The label texts and values of chart items.
pub open spec fn series_view(items: Seq<(String, usize)>) -> Seq<(Seq<char>, nat)> {
    Seq::new(items.len(), |i: int| (items[i].0@, items[i].1 as nat))
}

/// [`max_count`] over label texts and values.
pub open spec fn max_count_v(items: Seq<(Seq<char>, nat)>, n: int) -> nat
    decreases n,
{
    if n <= 0 {
        0
    } else {
        let m = max_count_v(items, n - 1);
        if items[n - 1].1 > m {
            items[n - 1].1
        } else {
            m
        }
    }
}

/// [`chart_max`] over label texts and values.
pub open spec fn chart_max_v(items: Seq<(Seq<char>, nat)>) -> nat {
    let m = max_count_v(items, items.len() as int);
    if m > 1 {
        m
    } else {
        1
    }
}

/// [`sparkline_lines`] over label texts and values.
pub open spec fn sparkline_lines_v(data: Seq<(Seq<char>, nat)>) -> Seq<Seq<char>> {
    if data.len() == 0 {
        Seq::empty()
    } else {
        let bars = Seq::new(data.len(), |i: int| seq![' ', spark_char(spark_level(data[i].1, chart_max_v(data))), ' ']);
        let labels = Seq::new(data.len(), |i: int| short_label(data[i].0) + seq![' ']);
        seq!["    \x1b[32m"@ + concat(bars) + "\x1b[0m"@, "    \x1b[2m"@ + concat(labels) + "\x1b[0m"@]
    }
}

/// [`labels_cuttable_at_3`] over label texts.
pub open spec fn labels_cuttable_at_3_v(data: Seq<(Seq<char>, nat)>) -> bool {
    forall|i: int| 0 <= i < data.len() && utf8_len(#[trigger] data[i].0) > 3 ==> is_boundary(data[i].0, 3)
}

proof fn lemma_max_count_view(items: Seq<(String, usize)>, n: int)
    requires
        n <= items.len(),
    ensures
        max_count(items, n) == max_count_v(series_view(items), n),
    decreases n,
{
    if n > 0 {
        lemma_max_count_view(items, n - 1);
    }
}

/// The sparkline of items depends only on their label texts and values.
pub proof fn lemma_sparkline_view(data: Seq<(String, usize)>)
    ensures
        sparkline_lines(data) == sparkline_lines_v(series_view(data)),
        labels_cuttable_at_3(data) == labels_cuttable_at_3_v(series_view(data)),
{
    let v = series_view(data);
    lemma_max_count_view(data, data.len() as int);
    assert(chart_max(data) == chart_max_v(v));
    if data.len() > 0 {
        let bars = Seq::new(
            data.len(),
            |i: int| seq![' ', spark_char(spark_level(data[i].1 as nat, chart_max(data))), ' '],
        );
        let bars_v = Seq::new(v.len(), |i: int| seq![' ', spark_char(spark_level(v[i].1, chart_max_v(v))), ' ']);
        assert(bars =~= bars_v);
        let labels = Seq::new(data.len(), |i: int| short_label(data[i].0@) + seq![' ']);
        let labels_v = Seq::new(v.len(), |i: int| short_label(v[i].0) + seq![' ']);
        assert(labels =~= labels_v);
    }
    assert(labels_cuttable_at_3(data) == labels_cuttable_at_3_v(v)) by {
        if labels_cuttable_at_3(data) {
            assert forall|i: int| 0 <= i < v.len() && utf8_len(#[trigger] v[i].0) > 3 implies is_boundary(v[i].0, 3) by {
                assert(v[i].0 == data[i].0@);
            }
        }
        if labels_cuttable_at_3_v(v) {
            assert forall|i: int| 0 <= i < data.len() && utf8_len(#[trigger] data[i].0@) > 3 implies is_boundary(
                data[i].0@,
                3,
            ) by {
                assert(v[i].0 == data[i].0@);
            }
        }
    }
}

/// [`max_label_bytes`] over label texts and values.
pub open spec fn max_label_bytes_v(items: Seq<(Seq<char>, nat)>, n: int) -> nat
    decreases n,
{
    if n <= 0 {
        0
    } else {
        let m = max_label_bytes_v(items, n - 1);
        if utf8_len(items[n - 1].0) > m {
            utf8_len(items[n - 1].0)
        } else {
            m
        }
    }
}

/// [`chart_label_width`] over label texts and values.
pub open spec fn chart_label_width_v(items: Seq<(Seq<char>, nat)>) -> nat {
    let m = max_label_bytes_v(items, items.len() as int);
    if m < 30 {
        m
    } else {
        30
    }
}

/// [`bar_chart_lines`] over label texts and values.
pub open spec fn bar_chart_lines_v(items: Seq<(Seq<char>, nat)>, color: Seq<char>) -> Seq<Seq<char>> {
    if items.len() == 0 {
        seq![no_data_line()]
    } else {
        Seq::new(
            items.len(),
            |i: int| bar_line(items[i].0, items[i].1, chart_max_v(items), chart_label_width_v(items), color),
        )
    }
}

/// [`labels_cuttable`] over label texts and values.
pub open spec fn labels_cuttable_v(items: Seq<(Seq<char>, nat)>, max: nat) -> bool {
    forall|i: int| 0 <= i < items.len() && utf8_len(#[trigger] items[i].0) > max ==> is_boundary(items[i].0, max - 1)
}

proof fn lemma_max_label_bytes_view(items: Seq<(String, usize)>, n: int)
    requires
        n <= items.len(),
    ensures
        max_label_bytes(items, n) == max_label_bytes_v(series_view(items), n),
    decreases n,
{
    if n > 0 {
        lemma_max_label_bytes_view(items, n - 1);
    }
}

/// A bar chart depends only on its items' label texts and values.
pub proof fn lemma_bar_chart_view(items: Seq<(String, usize)>, color: Seq<char>)
    ensures
        bar_chart_lines(items, color) == bar_chart_lines_v(series_view(items), color),
        labels_cuttable(items, 30) == labels_cuttable_v(series_view(items), 30),
{
    let v = series_view(items);
    lemma_max_count_view(items, items.len() as int);
    lemma_max_label_bytes_view(items, items.len() as int);
    if items.len() > 0 {
        assert(bar_chart_lines(items, color) =~= bar_chart_lines_v(v, color));
    }
    assert(labels_cuttable(items, 30) == labels_cuttable_v(v, 30)) by {
        if labels_cuttable(items, 30) {
            assert forall|i: int| 0 <= i < v.len() && utf8_len(#[trigger] v[i].0) > 30 implies is_boundary(v[i].0, 29) by {
                assert(v[i].0 == items[i].0@);
            }
        }
        if labels_cuttable_v(v, 30) {
            assert forall|i: int| 0 <= i < items.len() && utf8_len(#[trigger] items[i].0@) > 30 implies is_boundary(
                items[i].0@,
                29,
            ) by {
                assert(v[i].0 == items[i].0@);
            }
        }
    }
}

/// Whether a bar chart of the items can be printed: every label longer than
/// 30 bytes can be cut at byte 29.
pub fn chart_printable(items: &[(String, usize)]) -> (r: bool)
    ensures
        r == labels_cuttable(items@, 30),
{
    let mut i: usize = 0;
    while i < items.len()
        invariant
            i <= items@.len(),
            forall|k: int| 0 <= k < i && utf8_len(#[trigger] items@[k].0@) > 30 ==> is_boundary(items@[k].0@, 29),
        decreases items@.len() - i,
    {
        let c = chars_of(items[i].0.as_str());
        if utf8_len_capped_exec(&c, 31) > 30 && !is_boundary_exec(&c, 29) {
            return false;
        }
        i += 1;
    }
    true
}

/// Whether a sparkline of the items can be printed: every label longer than
/// 3 bytes can be cut at byte 3.
pub fn sparkline_printable(data: &[(String, usize)]) -> (r: bool)
    ensures
        r == labels_cuttable_at_3(data@),
{
    let mut i: usize = 0;
    while i < data.len()
        invariant
            i <= data@.len(),
            forall|k: int| 0 <= k < i && utf8_len(#[trigger] data@[k].0@) > 3 ==> is_boundary(data@[k].0@, 3),
        decreases data@.len() - i,
    {
        let c = chars_of(data[i].0.as_str());
        if utf8_len_capped_exec(&c, 4) > 3 && !is_boundary_exec(&c, 3) {
            return false;
        }
        i += 1;
    }
    true
}

} // verus!
