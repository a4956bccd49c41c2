use nom::character::complete::{char, one_of};
use nom::combinator::opt;
use nom::sequence::pair;
use nom::IResult;
use nom_locate::LocatedSpan;
use nom_tracable::{
    backward_trace, can_backward_trace, can_forward_trace, cumulative_histogram, forward_trace,
    histogram, HasTracableInfo, TracableInfo, TracableStorage,
};
use std::cell::RefCell;

type Span<'a> = LocatedSpan<&'a str, TracableInfo>;

struct Tracer {
    storage: TracableStorage,
    output: String,
}

fn traced<'a, F>(tracer: &RefCell<Tracer>, name: &str, s: Span<'a>, body: F) -> IResult<Span<'a>, String>
where
    F: FnOnce(Span<'a>) -> IResult<Span<'a>, String>,
{
    let (info, s) = {
        let mut t = tracer.borrow_mut();
        assert!(can_forward_trace(&t.storage, s.get_tracable_info()));
        let (info, s, text) = forward_trace(&mut t.storage, s, name);
        t.output.push_str(&text);
        (info, s)
    };
    let ret = body(s);
    let mut t = tracer.borrow_mut();
    assert!(can_backward_trace(&t.storage, &ret, name, info));
    let (ret, text) = backward_trace(&mut t.storage, ret, name, info);
    t.output.push_str(&text);
    ret
}

// expr := term (('+' | '-') expr)?
fn expr<'a>(t: &RefCell<Tracer>, s: Span<'a>) -> IResult<Span<'a>, String> {
    traced(t, "expr", s, |s| {
        let (s, x) = term(t, s)?;
        let (s, rest) = opt(pair(one_of("+-"), |s| expr(t, s)))(s)?;
        let ret = match rest {
            Some((op, y)) => format!("{}{}{}", x, op, y),
            None => x,
        };
        Ok((s, ret))
    })
}

fn term<'a>(t: &RefCell<Tracer>, s: Span<'a>) -> IResult<Span<'a>, String> {
    traced(t, "term", s, |s| {
        let (s, x) = char('1')(s)?;
        Ok((s, x.to_string()))
    })
}

fn tracer() -> RefCell<Tracer> {
    RefCell::new(Tracer { storage: TracableStorage::new(), output: String::new() })
}

const INPUT: &str = "1-1+1+1-1+1+1-1+1";

#[test]
fn scenario_returns_the_whole_input() {
    let t = tracer();
    let info = TracableInfo::new().forward(true).backward(true);
    let (rest, value) = expr(&t, LocatedSpan::new_extra(INPUT, info)).unwrap();
    assert_eq!(value, INPUT);
    assert_eq!(*rest.fragment(), "");
    assert_eq!(rest.location_offset(), 17);
}

#[test]
fn scenario_counts_every_call() {
    let t = tracer();
    let info = TracableInfo::new().forward(true).backward(true);
    expr(&t, LocatedSpan::new_extra(INPUT, info)).unwrap();
    let t = t.borrow();
    // nine calls of expr, each with one call of term
    assert_eq!(t.storage.get_forward_count(), 18);
    assert_eq!(t.storage.get_backward_count(), 18);
    assert_eq!(t.storage.histogram_table().get("term"), 9);
    assert_eq!(t.storage.histogram_table().get("expr"), 9);
    assert_eq!(t.storage.histogram_table().get("other"), 0);
    assert_eq!(t.storage.histogram_table().len(), 2);
}

#[test]
fn scenario_cumulative_counts_hold_the_calls_below() {
    let t = tracer();
    expr(&t, LocatedSpan::new_extra(INPUT, TracableInfo::new())).unwrap();
    let t = t.borrow();
    // term calls nothing: each call counts itself
    assert_eq!(t.storage.cumulative_histogram_table().get("term"), 9);
    // the k-th expr from the end holds 2k calls: 2 + 4 + ... + 18
    assert_eq!(t.storage.cumulative_histogram_table().get("expr"), 90);
    assert!(
        t.storage.cumulative_histogram_table().get("expr")
            >= t.storage.histogram_table().get("expr")
    );
    assert_eq!(
        t.storage.cumulative_histogram_table().get("term"),
        t.storage.histogram_table().get("term")
    );
    assert_eq!(t.storage.get_cumulative("expr", 0), None);
}

#[test]
fn scenario_shows_one_line_for_each_entering_and_leaving() {
    let t = tracer();
    let info = TracableInfo::new().color(false);
    expr(&t, LocatedSpan::new_extra(INPUT, info)).unwrap();
    let t = t.borrow();
    let lines: Vec<&str> = t.output.lines().collect();
    // an empty line, the title, and 18 lines each way
    assert_eq!(lines.len(), 2 + 36);
    assert_eq!(lines.iter().filter(|l| l.contains("-> ")).count(), 18);
    assert_eq!(lines.iter().filter(|l| l.contains("<- ")).count(), 18);
    assert_eq!(
        lines[2],
        format!("{:<10} {:<10} : {:<96} : {:<8} : {}", 1, "", "-> expr  ", 0, INPUT)
    );
    assert_eq!(
        lines[3],
        format!("{:<10} {:<10} : {:<96} : {:<8} : {}", 2, "", " -> term  ", 0, INPUT)
    );
    assert_eq!(
        lines[4],
        format!("{:<10} {:<10} : {:<96} : {:<8} : {}", "", 1, " <- term  ", 1, &INPUT[1..])
    );
    assert_eq!(
        lines[37],
        format!("{:<10} {:<10} : {:<96} : {:<8} : {}", "", 18, "<- expr  ", 17, "")
    );
}

#[test]
fn scenario_with_term_folded_counts_the_same() {
    let plain = tracer();
    expr(&plain, LocatedSpan::new_extra(INPUT, TracableInfo::new().color(false))).unwrap();

    let folded = tracer();
    let info = TracableInfo::new().color(false).fold(&mut folded.borrow_mut().storage, "term");
    let (_, value) = expr(&folded, LocatedSpan::new_extra(INPUT, info)).unwrap();
    assert_eq!(value, INPUT);

    let plain = plain.borrow();
    let folded = folded.borrow();
    assert_eq!(folded.storage.get_forward_count(), plain.storage.get_forward_count());
    assert_eq!(folded.storage.get_backward_count(), plain.storage.get_backward_count());
    assert_eq!(histogram(&folded.storage), histogram(&plain.storage));
    assert_eq!(cumulative_histogram(&folded.storage), cumulative_histogram(&plain.storage));
    // term calls nothing, so no line lies inside a call of term: the same
    // lines are shown, and those of term carry the fold mark
    let plain_lines: Vec<&str> = plain.output.lines().collect();
    let folded_lines: Vec<&str> = folded.output.lines().collect();
    assert_eq!(folded_lines.len(), plain_lines.len());
    assert_eq!(folded_lines.iter().filter(|l| l.contains("term +")).count(), 18);
    assert_eq!(folded_lines.iter().filter(|l| l.contains("expr +")).count(), 0);
}

#[test]
fn scenario_with_expr_folded_shows_the_outer_call_only() {
    let plain = tracer();
    expr(&plain, LocatedSpan::new_extra(INPUT, TracableInfo::new().color(false))).unwrap();

    let folded = tracer();
    let info = TracableInfo::new().color(false).fold(&mut folded.borrow_mut().storage, "expr");
    let (rest, value) = expr(&folded, LocatedSpan::new_extra(INPUT, info)).unwrap();
    assert_eq!(value, INPUT);
    // the outer call shows again what was shown when it was entered
    assert!(rest.extra.forward && rest.extra.backward && rest.extra.custom);

    let plain = plain.borrow();
    let folded = folded.borrow();
    let lines: Vec<&str> = folded.output.lines().collect();
    assert_eq!(
        lines,
        vec![
            "".to_string(),
            format!("{:<10} {:<10} : {:<96} : {:<8} : {}", "forward", "backward", "parser", "offset", "fragment"),
            format!("{:<10} {:<10} : {:<96} : {:<8} : {}", 1, "", "-> expr +", 0, INPUT),
            format!("{:<10} {:<10} : {:<96} : {:<8} : {}", "", 18, "<- expr +", 17, ""),
        ]
    );
    // what was counted is what is counted without folding
    assert_eq!(histogram(&folded.storage), histogram(&plain.storage));
    assert_eq!(cumulative_histogram(&folded.storage), cumulative_histogram(&plain.storage));
    assert_eq!(folded.storage.get_forward_count(), 18);
}

#[test]
fn scenario_twice_in_a_row_gives_the_same() {
    let t = tracer();
    let info = TracableInfo::new().color(false).fold(&mut t.borrow_mut().storage, "term");
    expr(&t, LocatedSpan::new_extra(INPUT, info)).unwrap();
    let first_output = t.borrow().output.clone();
    let first_histogram = histogram(&t.borrow().storage);
    let first_cumulative = cumulative_histogram(&t.borrow().storage);
    t.borrow_mut().output.clear();
    expr(&t, LocatedSpan::new_extra(INPUT, info)).unwrap();
    assert_eq!(t.borrow().output, first_output);
    assert_eq!(histogram(&t.borrow().storage), first_histogram);
    assert_eq!(cumulative_histogram(&t.borrow().storage), first_cumulative);
}

#[test]
fn scenario_without_tracing_gives_the_same_result() {
    let traced_run = tracer();
    let with = expr(&traced_run, LocatedSpan::new_extra(INPUT, TracableInfo::new())).unwrap();

    let silent = tracer();
    let without = expr(&silent, LocatedSpan::new_extra(INPUT, TracableInfo::disabled())).unwrap();
    assert_eq!(with.1, without.1);
    assert_eq!(with.0.fragment(), without.0.fragment());
    assert_eq!(with.0.location_offset(), without.0.location_offset());
    assert_eq!(silent.borrow().output, "");
    assert_eq!(silent.borrow().storage.get_forward_count(), 0);
    assert_eq!(silent.borrow().storage.histogram_table().len(), 0);
    assert_eq!(without.0.extra, TracableInfo::disabled());

    // a failure is the same failure
    let with = expr(&traced_run, LocatedSpan::new_extra("2", TracableInfo::new()));
    let without = expr(&silent, LocatedSpan::new_extra("2", TracableInfo::disabled()));
    assert!(with.is_err());
    assert_eq!(format!("{:?}", with.err().map(|e| e.map(|x| x.code))), format!("{:?}", without.err().map(|e| e.map(|x| x.code))));
}

#[test]
fn a_second_run_does_not_see_the_first() {
    let t = tracer();
    expr(&t, LocatedSpan::new_extra(INPUT, TracableInfo::new())).unwrap();
    assert_eq!(t.borrow().storage.histogram_table().get("expr"), 9);
    term(&t, LocatedSpan::new_extra("1", TracableInfo::new())).unwrap();
    let t = t.borrow();
    assert_eq!(t.storage.histogram_table().get("expr"), 0);
    assert_eq!(t.storage.histogram_table().get("term"), 1);
    assert_eq!(t.storage.histogram_table().len(), 1);
    assert_eq!(t.storage.cumulative_histogram_table().get("expr"), 0);
    assert_eq!(t.storage.cumulative_histogram_table().get("term"), 1);
    assert_eq!(t.storage.get_forward_count(), 1);
    assert_eq!(t.storage.get_backward_count(), 1);
}
