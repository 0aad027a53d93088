//! The scan driver's own steps: section headers, and one step run with its
//! output collected.
use vstd::prelude::*;
use crate::display::{
    buffered_text, flush_buffer, lemma_write_lines_effect, section_header_lines, start_buffering, write_lines, Output,
    OutputView,
};
use crate::text::{chars_of, extend, extend_str, pad_right, pad_right_exec, repeat, repeat_exec, string_of};

verus! {

/// The text a flushed buffer hands back.
pub open spec fn flushed(b: Option<Seq<char>>) -> Seq<char> {
    match b {
        Some(t) => t,
        None => Seq::empty(),
    }
}

/// Runs one step with a fresh, empty buffer active, then ends buffering.
/// Returns the text the step left in the buffer and the step's outcome; the
/// lines already on the terminal are those the step left there.
pub fn run_step<F: FnOnce(Output) -> (Output, Result<(), String>)>(o: &mut Output, f: F) -> (r: (
    String,
    Result<(), String>,
))
    requires
        forall|x: Output| x@.buffer == Some(Seq::<char>::empty()) ==> call_requires(f, (x,)),
    ensures
        exists|x: Output, y: Output|
            #![trigger call_ensures(f, (x,), (y, r.1))]
            {
                &&& x@.buffer == Some(Seq::<char>::empty())
                &&& x@.printed == old(o)@.printed
                &&& call_ensures(f, (x,), (y, r.1))
                &&& r.0@ == flushed(y@.buffer)
                &&& final(o)@.printed == y@.printed
            },
        final(o)@.buffer is None,
{
    let mut cur = Output::new();
    std::mem::swap(&mut cur, o);
    start_buffering(&mut cur);
    let ghost x = cur;
    let (next, res) = f(cur);
    let ghost y = next;
    *o = next;
    let s = flush_buffer(o);
    proof {
        assert(call_ensures(f, (x,), (y, res)));
        assert(x@.buffer == Some(Seq::<char>::empty()) && x@.printed == old(o)@.printed);
        assert(s@ == flushed(y@.buffer) && o@.printed == y@.printed);
        let r = (s, res);
        assert(exists|x1: Output, y1: Output|
            #![trigger call_ensures(f, (x1,), (y1, r.1))]
            {
                &&& x1@.buffer == Some(Seq::<char>::empty())
                &&& x1@.printed == old(o)@.printed
                &&& call_ensures(f, (x1,), (y1, r.1))
                &&& r.0@ == flushed(y1@.buffer)
                &&& o@.printed == y1@.printed
            });
    }
    (s, res)
}

/// The boxed header that opens a section of the collected report.
pub fn section_header(title: &str) -> (r: String)
    ensures
        r@ == buffered_text(section_header_lines(title@)),
{
    let t = chars_of(title);
    let mut v: Vec<char> = Vec::new();
    extend_str(&mut v, "\n\x1b[1;36m╔");
    repeat_exec(&mut v, '═', 60);
    extend_str(&mut v, "╗\x1b[0m");
    v.push('\n');
    extend_str(&mut v, "\x1b[1;36m║\x1b[0m \x1b[1;37m");
    pad_right_exec(&mut v, &t, 58);
    extend_str(&mut v, "\x1b[0m \x1b[1;36m║\x1b[0m");
    v.push('\n');
    extend_str(&mut v, "\x1b[1;36m╚");
    repeat_exec(&mut v, '═', 60);
    extend_str(&mut v, "╝\x1b[0m");
    v.push('\n');
    proof {
        let ls = section_header_lines(title@);
        reveal_with_fuel(buffered_text, 4);
        assert(ls.drop_last().drop_last().drop_last() =~= Seq::<Seq<char>>::empty());
        assert(ls.drop_last().drop_last() =~= seq![ls[0]]);
        assert(ls.drop_last() =~= seq![ls[0], ls[1]]);
        assert(buffered_text(ls) =~= ls[0].push('\n') + ls[1].push('\n') + ls[2].push('\n'));
        assert(v@ =~= ls[0].push('\n') + ls[1].push('\n') + ls[2].push('\n'));
    }
    string_of(&v)
}

/// A section header printed into a fresh buffer leaves there exactly the
/// text that [`section_header`] returns, and prints nothing.
pub proof fn lemma_section_header_buffered(o: OutputView, title: Seq<char>)
    requires
        o.buffer == Some(Seq::<char>::empty()),
    ensures
        write_lines(o, section_header_lines(title)) == (OutputView {
            buffer: Some(buffered_text(section_header_lines(title))),
            printed: o.printed,
        }),
{
    lemma_write_lines_effect(o, section_header_lines(title));
    assert(Seq::<char>::empty() + buffered_text(section_header_lines(title)) =~= buffered_text(
        section_header_lines(title),
    ));
}

} // verus!
