//! The top-level grammar: the root-item dispatcher, the `MEMORY` and
//! `SECTIONS` block parsers, and the driving `parse` loop.

use vstd::prelude::*;
use vstd::string::StrSliceExecFns;
use crate::ast::expr_view;
use crate::ast::AssignOperator;
use crate::ast::Command;
use crate::ast::ExprView;
use crate::ast::ParseError;
use crate::ast::Region;
use crate::ast::SectionCommand;
use crate::ast::Statement;
use crate::expressions::expr_scan;
use crate::expressions::expression;
use crate::text::blank;
use crate::text::ident_at;
use crate::text::ident_end;
use crate::text::is_digit;
use crate::text::is_ident_start;
use crate::text::lemma_ident_end_bounds;
use crate::text::lemma_number_token_end;
use crate::text::lemma_ws_scan_bounds;
use crate::text::lit_at;
use crate::text::lit_match;
use crate::text::number_at;
use crate::text::number_token;
use crate::text::skip_ws;
use crate::text::ws_end;

verus! {

/// One top-level construct of a script.
#[derive(Debug, PartialEq)]
pub enum RootItem {
    Statement(Statement),
    Command(Command),
    Memory { regions: Vec<Region> },
    Sections { list: Vec<SectionCommand> },
}

/// The accumulator of one parse call: the ordered list of root items built
/// so far, doubling as the symbol table for expression evaluation. It is
/// owned by exactly one parse call, reset on entry and drained on completion;
/// it never persists across calls.
#[derive(Debug)]
pub struct ParseState {
    pub items: Vec<RootItem>,
}

/// Empty the accumulator. `parse` calls this on entry, so no state can leak
/// from one parse call into the next.
pub fn clear_state(state: &mut ParseState)
    ensures
        final(state).items@ == Seq::<RootItem>::empty(),
{
    state.items = Vec::new();
}

/// The outcome of trying one recognizer at one position: a recognized item
/// together with the position just past it, a soft "no match here" that lets
/// the caller try the next alternative or stop cleanly, or a hard failure
/// that must abort the whole parse.
#[derive(Debug)]
pub enum ParseOutcome {
    Matched(RootItem, usize),
    NoMatch,
    Fatal(ParseError),
}

/// A block of the given keyword is opened at `pos`: the keyword occurs
/// there, and the next character after intervening whitespace is `{`.
pub open spec fn block_opener(s: Seq<char>, pos: int, kw: Seq<char>) -> bool {
    &&& lit_match(s, pos, kw)
    &&& ws_end(s, pos + kw.len()) < s.len()
    &&& s[ws_end(s, pos + kw.len())] == '{'
}

/// The mathematical shadow of a root item: the same shape over character
/// sequences and value tuples.
pub enum ItemView {
    Statement(Seq<char>, AssignOperator, ExprView),
    Command(Seq<char>, Seq<Seq<char>>),
    Memory(Seq<(Seq<char>, u64, u64)>),
    Sections(Seq<(Seq<char>, Seq<char>)>),
}

/// The shadow of a root item.
pub open spec fn item_view(item: RootItem) -> ItemView {
    match item {
        RootItem::Statement(st) => match st {
            Statement::Assign { name, operator, expression } => ItemView::Statement(
                name@,
                operator,
                expr_view(*expression),
            ),
        },
        RootItem::Command(c) => ItemView::Command(c.name@, args_view(c.arguments@)),
        RootItem::Memory { regions } => ItemView::Memory(regions_view(regions@)),
        RootItem::Sections { list } => ItemView::Sections(sections_view(list@)),
    }
}

/// The shadows of an item list, in order.
pub open spec fn items_view(items: Seq<RootItem>) -> Seq<ItemView> {
    items.map_values(|item: RootItem| item_view(item))
}

/// The mathematical shadow of a recognizer's outcome: the matched item's
/// shadow with the position just past it, a soft no-match, or the position
/// at which a closing delimiter is missing.
pub enum OutcomeView {
    Matched(ItemView, int),
    NoMatch,
    Fatal(int),
}

/// The shadow of an outcome.
pub open spec fn outcome_view(r: ParseOutcome) -> OutcomeView {
    match r {
        ParseOutcome::Matched(item, np) => OutcomeView::Matched(item_view(item), np as int),
        ParseOutcome::NoMatch => OutcomeView::NoMatch,
        ParseOutcome::Fatal(e) => match e {
            ParseError::UnclosedBlock(at) => OutcomeView::Fatal(at as int),
        },
    }
}

/// The assignment statement at `pos`, if the text there reads
/// `name = expression ;`: its name, the expression's shadow and the
/// position just past it.
pub open spec fn statement_token(s: Seq<char>, pos: int) -> Option<(Seq<char>, ExprView, int)> {
    if !(0 <= pos < s.len() && is_ident_start(s[pos])) {
        Option::None
    } else {
        let i1 = ident_end(s, pos + 1);
        let w1 = ws_end(s, i1);
        if !(w1 < s.len() && s[w1] == '=') {
            Option::None
        } else {
            let p2 = ws_end(s, w1 + 1);
            match expr_scan(s, p2) {
                Option::None => Option::None,
                Option::Some((ev, p3)) => {
                    let wp2 = ws_end(s, p3);
                    if wp2 < s.len() && s[wp2] == ';' {
                        Option::Some((s.subrange(pos, i1), ev, wp2 + 1))
                    } else {
                        Option::None
                    }
                },
            }
        }
    }
}

/// Recognize an assignment statement, `name = expression ;`: the outcome is
/// exactly what [`statement_token`] reads at `pos`.
pub fn statement_item(s: &str, pos: usize) -> (r: ParseOutcome)
    requires
        pos <= s@.len(),
    ensures
        outcome_view(r) == match statement_token(s@, pos as int) {
            Option::Some((n, ev, end)) => OutcomeView::Matched(
                ItemView::Statement(n, AssignOperator::Equals, ev),
                end,
            ),
            Option::None => OutcomeView::NoMatch,
        },
        r matches ParseOutcome::Matched(item, np) ==> pos < np <= s@.len() && s@[np - 1] == ';',
        pos == s@.len() ==> r is NoMatch,
        !(r is Fatal),
{
    let len = s.unicode_len();
    match ident_at(s, pos) {
        Option::None => ParseOutcome::NoMatch,
        Option::Some((name, p1)) => {
            let wp = skip_ws(s, p1);
            if !(wp < len && s.get_char(wp) == '=') {
                return ParseOutcome::NoMatch;
            }
            let p2 = skip_ws(s, wp + 1);
            match expression(s, p2) {
                Option::None => ParseOutcome::NoMatch,
                Option::Some((e, p3)) => {
                    let wp2 = skip_ws(s, p3);
                    if wp2 < len && s.get_char(wp2) == ';' {
                        ParseOutcome::Matched(
                            RootItem::Statement(
                                Statement::Assign {
                                    name,
                                    operator: AssignOperator::Equals,
                                    expression: Box::new(e),
                                },
                            ),
                            wp2 + 1,
                        )
                    } else {
                        ParseOutcome::NoMatch
                    }
                },
            }
        },
    }
}

/// The views of an argument list, in order.
pub open spec fn args_view(arguments: Seq<String>) -> Seq<Seq<char>> {
    arguments.map_values(|a: String| a@)
}

/// The identifier arguments readable from `pos`, separated by commas or
/// whitespace, together with the position where the scan stops.
pub open spec fn args_scan(s: Seq<char>, pos: int) -> (Seq<Seq<char>>, int)
    decreases s.len() - pos,
    when 0 <= pos <= s.len()
    via args_scan_decreases
{
    if !(pos < s.len() && is_ident_start(s[pos])) {
        (Seq::<Seq<char>>::empty(), pos)
    } else {
        let i1 = ident_end(s, pos + 1);
        let w = ws_end(s, i1);
        let next = if w < s.len() && s[w] == ',' {
            ws_end(s, w + 1)
        } else {
            w
        };
        let (rest, stop) = args_scan(s, next);
        (seq![s.subrange(pos, i1)] + rest, stop)
    }
}

#[via_fn]
proof fn args_scan_decreases(s: Seq<char>, pos: int) {
    if pos < s.len() && is_ident_start(s[pos]) {
        lemma_ident_end_bounds(s, pos + 1);
        let i1 = ident_end(s, pos + 1);
        lemma_ws_scan_bounds(s, i1, Option::None);
        let w = ws_end(s, i1);
        if w < s.len() && s[w] == ',' {
            lemma_ws_scan_bounds(s, w + 1, Option::None);
        }
    }
}

/// The command at `pos`, if the text there reads `name ( arg , ... )`: its
/// name, its arguments and the position just past it.
pub open spec fn command_token(s: Seq<char>, pos: int) -> Option<(Seq<char>, Seq<Seq<char>>, int)> {
    if !(0 <= pos < s.len() && is_ident_start(s[pos])) {
        Option::None
    } else {
        let i1 = ident_end(s, pos + 1);
        let w1 = ws_end(s, i1);
        if !(w1 < s.len() && s[w1] == '(') {
            Option::None
        } else {
            let (args, stop) = args_scan(s, ws_end(s, w1 + 1));
            if stop < s.len() && s[stop] == ')' {
                Option::Some((s.subrange(pos, i1), args, stop + 1))
            } else {
                Option::None
            }
        }
    }
}

/// Recognize a miscellaneous command, `name ( arg , ... )`, whose arguments
/// are identifiers separated by commas or whitespace: the outcome is
/// exactly what [`command_token`] reads at `pos`.
pub fn command_item(s: &str, pos: usize) -> (r: ParseOutcome)
    requires
        pos <= s@.len(),
    ensures
        outcome_view(r) == match command_token(s@, pos as int) {
            Option::Some((n, args, end)) => OutcomeView::Matched(ItemView::Command(n, args), end),
            Option::None => OutcomeView::NoMatch,
        },
        ({
            let named = pos < s@.len() && is_ident_start(s@[pos as int]);
            let i1 = ident_end(s@, pos + 1);
            let w1 = ws_end(s@, i1);
            let par = named && w1 < s@.len() && s@[w1] == '(';
            let (args, stop) = args_scan(s@, ws_end(s@, w1 + 1));
            let closed = par && stop < s@.len() && s@[stop] == ')';
            &&& (r is NoMatch <==> !closed)
            &&& (r matches ParseOutcome::Matched(item, np) ==> closed && np == stop + 1 && (item
                matches RootItem::Command(c) && c.name@ == s@.subrange(pos as int, i1)
                && args_view(c.arguments@) == args))
        }),
        r matches ParseOutcome::Matched(item, np) ==> pos < np <= s@.len() && s@[np - 1] == ')',
        pos == s@.len() ==> r is NoMatch,
        !(r is Fatal),
{
    let len = s.unicode_len();
    match ident_at(s, pos) {
        Option::None => ParseOutcome::NoMatch,
        Option::Some((name, p1)) => {
            let wp = skip_ws(s, p1);
            if !(wp < len && s.get_char(wp) == '(') {
                return ParseOutcome::NoMatch;
            }
            let mut arguments: Vec<String> = Vec::new();
            let start = skip_ws(s, wp + 1);
            let mut cur = start;
            proof {
                assert(args_scan(s@, start as int).0 =~= args_view(arguments@) + args_scan(
                    s@,
                    cur as int,
                ).0);
            }
            loop
                invariant
                    len == s@.len(),
                    pos < cur <= len,
                    pos < s@.len() && is_ident_start(s@[pos as int]),
                    p1 == ident_end(s@, pos + 1),
                    wp == ws_end(s@, p1 as int),
                    wp < len && s@[wp as int] == '(',
                    name@ == s@.subrange(pos as int, p1 as int),
                    start == ws_end(s@, wp + 1),
                    args_scan(s@, start as int).0 == args_view(arguments@) + args_scan(
                        s@,
                        cur as int,
                    ).0,
                    args_scan(s@, start as int).1 == args_scan(s@, cur as int).1,
                decreases len - cur,
            {
                match ident_at(s, cur) {
                    Option::None => {
                        proof {
                            assert(args_scan(s@, cur as int) == (
                                Seq::<Seq<char>>::empty(),
                                cur as int,
                            ));
                            assert(args_scan(s@, start as int).0 =~= args_view(arguments@));
                        }
                        if cur < len && s.get_char(cur) == ')' {
                            return ParseOutcome::Matched(
                                RootItem::Command(Command { name, arguments }),
                                cur + 1,
                            );
                        } else {
                            return ParseOutcome::NoMatch;
                        }
                    },
                    Option::Some((a, np)) => {
                        let wp2 = skip_ws(s, np);
                        let next = if wp2 < len && s.get_char(wp2) == ',' {
                            skip_ws(s, wp2 + 1)
                        } else {
                            wp2
                        };
                        proof {
                            assert(args_scan(s@, cur as int).0 == seq![a@] + args_scan(
                                s@,
                                next as int,
                            ).0);
                            assert(args_view(arguments@.push(a)) =~= args_view(arguments@) + seq![
                                a@,
                            ]);
                            assert(args_view(arguments@) + (seq![a@] + args_scan(
                                s@,
                                next as int,
                            ).0) =~= (args_view(arguments@) + seq![a@]) + args_scan(
                                s@,
                                next as int,
                            ).0);
                        }
                        arguments.push(a);
                        cur = next;
                    },
                }
            }
        },
    }
}

/// The region declaration at `pos`, if the text there reads
/// `name : ORIGIN = number , LENGTH = number`: its name, its two values and
/// the position just past it.
pub open spec fn region_token(s: Seq<char>, pos: int) -> Option<(Seq<char>, u64, u64, int)> {
    if !(0 <= pos < s.len() && is_ident_start(s[pos])) {
        Option::None
    } else {
        let i1 = ident_end(s, pos + 1);
        let w1 = ws_end(s, i1);
        if !(w1 < s.len() && s[w1] == ':') {
            Option::None
        } else {
            let p2 = ws_end(s, w1 + 1);
            if !lit_match(s, p2, "ORIGIN"@) {
                Option::None
            } else {
                let w2 = ws_end(s, p2 + "ORIGIN"@.len());
                if !(w2 < s.len() && s[w2] == '=') {
                    Option::None
                } else {
                    let p4 = ws_end(s, w2 + 1);
                    if !(p4 < s.len() && is_digit(s[p4])) {
                        Option::None
                    } else {
                        let (origin, p5) = number_token(s, p4);
                        let w3 = ws_end(s, p5);
                        if !(w3 < s.len() && s[w3] == ',') {
                            Option::None
                        } else {
                            let p6 = ws_end(s, w3 + 1);
                            if !lit_match(s, p6, "LENGTH"@) {
                                Option::None
                            } else {
                                let w4 = ws_end(s, p6 + "LENGTH"@.len());
                                if !(w4 < s.len() && s[w4] == '=') {
                                    Option::None
                                } else {
                                    let p8 = ws_end(s, w4 + 1);
                                    if !(p8 < s.len() && is_digit(s[p8])) {
                                        Option::None
                                    } else {
                                        let (length, p9) = number_token(s, p8);
                                        Option::Some((s.subrange(pos, i1), origin, length, p9))
                                    }
                                }
                            }
                        }
                    }
                }
            }
        }
    }
}

/// A recognized region declaration ends strictly after its start and within
/// the text.
pub proof fn lemma_region_token_end(s: Seq<char>, pos: int)
    requires
        0 <= pos <= s.len(),
    ensures
        region_token(s, pos) matches Option::Some(t) ==> pos < t.3 <= s.len(),
{
    if pos < s.len() && is_ident_start(s[pos]) {
        lemma_ident_end_bounds(s, pos + 1);
        let i1 = ident_end(s, pos + 1);
        lemma_ws_scan_bounds(s, i1, Option::None);
        let w1 = ws_end(s, i1);
        if w1 < s.len() && s[w1] == ':' {
            lemma_ws_scan_bounds(s, w1 + 1, Option::None);
            let p2 = ws_end(s, w1 + 1);
            if lit_match(s, p2, "ORIGIN"@) {
                lemma_ws_scan_bounds(s, p2 + "ORIGIN"@.len(), Option::None);
                let w2 = ws_end(s, p2 + "ORIGIN"@.len());
                if w2 < s.len() && s[w2] == '=' {
                    lemma_ws_scan_bounds(s, w2 + 1, Option::None);
                    let p4 = ws_end(s, w2 + 1);
                    if p4 < s.len() && is_digit(s[p4]) {
                        lemma_number_token_end(s, p4);
                        let p5 = number_token(s, p4).1;
                        lemma_ws_scan_bounds(s, p5, Option::None);
                        let w3 = ws_end(s, p5);
                        if w3 < s.len() && s[w3] == ',' {
                            lemma_ws_scan_bounds(s, w3 + 1, Option::None);
                            let p6 = ws_end(s, w3 + 1);
                            if lit_match(s, p6, "LENGTH"@) {
                                lemma_ws_scan_bounds(s, p6 + "LENGTH"@.len(), Option::None);
                                let w4 = ws_end(s, p6 + "LENGTH"@.len());
                                if w4 < s.len() && s[w4] == '=' {
                                    lemma_ws_scan_bounds(s, w4 + 1, Option::None);
                                    let p8 = ws_end(s, w4 + 1);
                                    if p8 < s.len() && is_digit(s[p8]) {
                                        lemma_number_token_end(s, p8);
                                    }
                                }
                            }
                        }
                    }
                }
            }
        }
    }
}

/// Recognize one region declaration inside a `MEMORY` block:
/// `name : ORIGIN = number , LENGTH = number`.
pub fn region_at(s: &str, pos: usize) -> (r: Option<(Region, usize)>)
    requires
        pos <= s@.len(),
    ensures
        match r {
            Option::Some((reg, np)) => pos < np <= s@.len() && region_token(s@, pos as int)
                == Option::Some((reg.name@, reg.origin, reg.length, np as int)),
            Option::None => region_token(s@, pos as int) is None,
        },
{
    let len = s.unicode_len();
    let (name, p1) = match ident_at(s, pos) {
        Option::None => {
            return None;
        },
        Option::Some(x) => x,
    };
    let wp = skip_ws(s, p1);
    if !(wp < len && s.get_char(wp) == ':') {
        return None;
    }
    let p2 = skip_ws(s, wp + 1);
    let p3 = match lit_at(s, p2, "ORIGIN") {
        Option::None => {
            return None;
        },
        Option::Some(x) => x,
    };
    let wp2 = skip_ws(s, p3);
    if !(wp2 < len && s.get_char(wp2) == '=') {
        return None;
    }
    let p4 = skip_ws(s, wp2 + 1);
    let (origin, p5) = match number_at(s, p4) {
        Option::None => {
            return None;
        },
        Option::Some(x) => x,
    };
    let wp3 = skip_ws(s, p5);
    if !(wp3 < len && s.get_char(wp3) == ',') {
        return None;
    }
    let p6 = skip_ws(s, wp3 + 1);
    let p7 = match lit_at(s, p6, "LENGTH") {
        Option::None => {
            return None;
        },
        Option::Some(x) => x,
    };
    let wp4 = skip_ws(s, p7);
    if !(wp4 < len && s.get_char(wp4) == '=') {
        return None;
    }
    let p8 = skip_ws(s, wp4 + 1);
    let (length, p9) = match number_at(s, p8) {
        Option::None => {
            return None;
        },
        Option::Some(x) => x,
    };
    Some((Region { name, origin, length }, p9))
}

/// The position of the first `}` at or after `i`, or the text's end.
pub open spec fn brace_end(s: Seq<char>, i: int) -> int
    decreases s.len() - i,
    when 0 <= i
{
    if i < s.len() && s[i] != '}' {
        brace_end(s, i + 1)
    } else {
        i
    }
}

/// The section command at `pos`, if the text there reads `name : { body }`:
/// its name, its verbatim body and the position just past it.
pub open spec fn section_token(s: Seq<char>, pos: int) -> Option<(Seq<char>, Seq<char>, int)> {
    if !(0 <= pos < s.len() && is_ident_start(s[pos])) {
        Option::None
    } else {
        let i1 = ident_end(s, pos + 1);
        let w1 = ws_end(s, i1);
        if !(w1 < s.len() && s[w1] == ':') {
            Option::None
        } else {
            let p2 = ws_end(s, w1 + 1);
            if !(p2 < s.len() && s[p2] == '{') {
                Option::None
            } else {
                let j = brace_end(s, p2 + 1);
                if j >= s.len() {
                    Option::None
                } else {
                    Option::Some((s.subrange(pos, i1), s.subrange(p2 + 1, j), j + 1))
                }
            }
        }
    }
}

/// The scan for a closing brace never moves backwards nor past the end.
pub proof fn lemma_brace_end_bounds(s: Seq<char>, i: int)
    requires
        0 <= i <= s.len(),
    ensures
        i <= brace_end(s, i) <= s.len(),
    decreases s.len() - i,
{
    if i < s.len() && s[i] != '}' {
        lemma_brace_end_bounds(s, i + 1);
    }
}

/// A recognized section command ends strictly after its start and within
/// the text.
pub proof fn lemma_section_token_end(s: Seq<char>, pos: int)
    requires
        0 <= pos <= s.len(),
    ensures
        section_token(s, pos) matches Option::Some(t) ==> pos < t.2 <= s.len(),
{
    if pos < s.len() && is_ident_start(s[pos]) {
        lemma_ident_end_bounds(s, pos + 1);
        let i1 = ident_end(s, pos + 1);
        lemma_ws_scan_bounds(s, i1, Option::None);
        let w1 = ws_end(s, i1);
        if w1 < s.len() && s[w1] == ':' {
            lemma_ws_scan_bounds(s, w1 + 1, Option::None);
            let p2 = ws_end(s, w1 + 1);
            if p2 < s.len() && s[p2] == '{' {
                lemma_brace_end_bounds(s, p2 + 1);
            }
        }
    }
}

/// Recognize one entry of a `SECTIONS` block, `name : { body }`; the body
/// runs to the first `}` and is kept verbatim.
pub fn section_command_at(s: &str, pos: usize) -> (r: Option<(SectionCommand, usize)>)
    requires
        pos <= s@.len(),
    ensures
        match r {
            Option::Some((sc, np)) => pos < np <= s@.len() && section_token(s@, pos as int)
                == Option::Some((sc.name@, sc.body@, np as int)),
            Option::None => section_token(s@, pos as int) is None,
        },
{
    let len = s.unicode_len();
    let (name, p1) = match ident_at(s, pos) {
        Option::None => {
            return None;
        },
        Option::Some(x) => x,
    };
    let wp = skip_ws(s, p1);
    if !(wp < len && s.get_char(wp) == ':') {
        return None;
    }
    let p2 = skip_ws(s, wp + 1);
    if !(p2 < len && s.get_char(p2) == '{') {
        return None;
    }
    let mut j = p2 + 1;
    while j < len && s.get_char(j) != '}'
        invariant
            len == s@.len(),
            p2 + 1 <= j <= len,
            brace_end(s@, p2 + 1) == brace_end(s@, j as int),
        decreases len - j,
    {
        j = j + 1;
    }
    if j >= len {
        // the entry's own body never closes: no match here, and the
        // enclosing block parser will fail hard at its close delimiter
        return None;
    }
    let body = s.substring_char(p2 + 1, j).to_owned();
    Some((SectionCommand { name, body }, j + 1))
}

/// The names, origins and lengths of a region list, in order.
pub open spec fn regions_view(regions: Seq<Region>) -> Seq<(Seq<char>, u64, u64)> {
    regions.map_values(|reg: Region| (reg.name@, reg.origin, reg.length))
}

/// The ordered region declarations readable from `pos`, each preceded by
/// skippable whitespace, together with the position where the scan stops:
/// the first position, after whitespace, at which no region declaration
/// matches.
pub open spec fn regions_scan(s: Seq<char>, pos: int) -> (Seq<(Seq<char>, u64, u64)>, int)
    decreases s.len() - pos,
    when 0 <= pos <= s.len()
    via regions_scan_decreases
{
    let wp = ws_end(s, pos);
    match region_token(s, wp) {
        Option::None => (Seq::<(Seq<char>, u64, u64)>::empty(), wp),
        Option::Some((name, origin, length, end)) => {
            let (rest, stop) = regions_scan(s, end);
            (seq![(name, origin, length)] + rest, stop)
        },
    }
}

#[via_fn]
proof fn regions_scan_decreases(s: Seq<char>, pos: int) {
    lemma_ws_scan_bounds(s, pos, Option::None);
    lemma_region_token_end(s, ws_end(s, pos));
}

/// What the memory-block recognizer reads at `pos`: the finished block, a
/// soft no-match where no block is opened, or the position at which the
/// closing delimiter is missing.
pub open spec fn memory_token(s: Seq<char>, pos: int) -> OutcomeView {
    if !block_opener(s, pos, "MEMORY"@) {
        OutcomeView::NoMatch
    } else {
        let brace = ws_end(s, pos + "MEMORY"@.len());
        let (regs, stop) = regions_scan(s, brace + 1);
        if stop < s.len() && s[stop] == '}' {
            OutcomeView::Matched(ItemView::Memory(regs), stop + 1)
        } else {
            OutcomeView::Fatal(stop)
        }
    }
}

/// Recognize a `MEMORY { <region>* }` block. Once the keyword and the
/// opening delimiter have matched, the block is committed: the outcome is
/// either the finished block — exactly the regions that [`regions_scan`]
/// reads after the opening brace, closed by `}` — or a hard failure where
/// the closing delimiter is missing; never a soft no-match, which would
/// silently truncate malformed input. The outcome is exactly
/// [`memory_token`].
pub fn memory_item(s: &str, pos: usize) -> (r: ParseOutcome)
    requires
        pos <= s@.len(),
    ensures
        outcome_view(r) == memory_token(s@, pos as int),
        ({
            let opened = block_opener(s@, pos as int, "MEMORY"@);
            let brace = ws_end(s@, pos + "MEMORY"@.len());
            let (regs, stop) = regions_scan(s@, brace + 1);
            &&& (r is NoMatch <==> !opened)
            &&& (r matches ParseOutcome::Matched(item, np) ==> opened && stop < s@.len()
                && s@[stop] == '}' && np == stop + 1 && (item matches RootItem::Memory { regions }
                && regions_view(regions@) == regs))
            &&& (r matches ParseOutcome::Fatal(e) ==> opened && !(stop < s@.len() && s@[stop]
                == '}') && (e matches ParseError::UnclosedBlock(at) && at == stop))
        }),
        r matches ParseOutcome::Matched(item, np) ==> pos < np <= s@.len() && s@[np - 1] == '}',
        pos == s@.len() ==> r is NoMatch,
{
    let len = s.unicode_len();
    let p1 = match lit_at(s, pos, "MEMORY") {
        Option::None => {
            return ParseOutcome::NoMatch;
        },
        Option::Some(x) => x,
    };
    let p2 = skip_ws(s, p1);
    if !(p2 < len && s.get_char(p2) == '{') {
        return ParseOutcome::NoMatch;
    }
    let mut regions: Vec<Region> = Vec::new();
    let mut cur = p2 + 1;
    proof {
        assert(regions_scan(s@, p2 + 1).0 =~= regions_view(regions@) + regions_scan(
            s@,
            cur as int,
        ).0);
    }
    loop
        invariant
            len == s@.len(),
            pos < cur <= len,
            block_opener(s@, pos as int, "MEMORY"@),
            p2 == ws_end(s@, pos + "MEMORY"@.len()),
            p2 + 1 <= cur,
            regions_scan(s@, p2 + 1).0 == regions_view(regions@) + regions_scan(s@, cur as int).0,
            regions_scan(s@, p2 + 1).1 == regions_scan(s@, cur as int).1,
        decreases len - cur,
    {
        let wp = skip_ws(s, cur);
        match region_at(s, wp) {
            Option::Some((reg, np)) => {
                proof {
                    assert(regions_scan(s@, cur as int).0 == seq![
                        (reg.name@, reg.origin, reg.length),
                    ] + regions_scan(s@, np as int).0);
                    assert(regions_view(regions@.push(reg)) =~= regions_view(regions@) + seq![
                        (reg.name@, reg.origin, reg.length),
                    ]);
                    assert(regions_view(regions@) + (seq![(reg.name@, reg.origin, reg.length)]
                        + regions_scan(s@, np as int).0) =~= (regions_view(regions@) + seq![
                        (reg.name@, reg.origin, reg.length),
                    ]) + regions_scan(s@, np as int).0);
                }
                regions.push(reg);
                cur = np;
            },
            Option::None => {
                proof {
                    assert(regions_scan(s@, cur as int) == (
                        Seq::<(Seq<char>, u64, u64)>::empty(),
                        wp as int,
                    ));
                    assert(regions_scan(s@, p2 + 1).0 =~= regions_view(regions@));
                }
                if wp < len && s.get_char(wp) == '}' {
                    return ParseOutcome::Matched(RootItem::Memory { regions }, wp + 1);
                } else {
                    return ParseOutcome::Fatal(ParseError::UnclosedBlock(wp));
                }
            },
        }
    }
}

/// The names and bodies of a section-command list, in order.
pub open spec fn sections_view(list: Seq<SectionCommand>) -> Seq<(Seq<char>, Seq<char>)> {
    list.map_values(|sc: SectionCommand| (sc.name@, sc.body@))
}

/// The ordered section commands readable from `pos`, each preceded by
/// skippable whitespace, together with the position where the scan stops.
pub open spec fn sections_scan(s: Seq<char>, pos: int) -> (Seq<(Seq<char>, Seq<char>)>, int)
    decreases s.len() - pos,
    when 0 <= pos <= s.len()
    via sections_scan_decreases
{
    let wp = ws_end(s, pos);
    match section_token(s, wp) {
        Option::None => (Seq::<(Seq<char>, Seq<char>)>::empty(), wp),
        Option::Some((name, body, end)) => {
            let (rest, stop) = sections_scan(s, end);
            (seq![(name, body)] + rest, stop)
        },
    }
}

#[via_fn]
proof fn sections_scan_decreases(s: Seq<char>, pos: int) {
    lemma_ws_scan_bounds(s, pos, Option::None);
    lemma_section_token_end(s, ws_end(s, pos));
}

/// What the sections-block recognizer reads at `pos`.
pub open spec fn sections_token(s: Seq<char>, pos: int) -> OutcomeView {
    if !block_opener(s, pos, "SECTIONS"@) {
        OutcomeView::NoMatch
    } else {
        let brace = ws_end(s, pos + "SECTIONS"@.len());
        let (entries, stop) = sections_scan(s, brace + 1);
        if stop < s.len() && s[stop] == '}' {
            OutcomeView::Matched(ItemView::Sections(entries), stop + 1)
        } else {
            OutcomeView::Fatal(stop)
        }
    }
}

/// Recognize a `SECTIONS { <section-command>* }` block, committed in the
/// same way as [`memory_item`]: once opened, the outcome is exactly the
/// entries that [`sections_scan`] reads after the opening brace, closed by
/// `}`, or a hard failure where the closing delimiter is missing. The
/// outcome is exactly [`sections_token`].
pub fn sections_item(s: &str, pos: usize) -> (r: ParseOutcome)
    requires
        pos <= s@.len(),
    ensures
        outcome_view(r) == sections_token(s@, pos as int),
        ({
            let opened = block_opener(s@, pos as int, "SECTIONS"@);
            let brace = ws_end(s@, pos + "SECTIONS"@.len());
            let (entries, stop) = sections_scan(s@, brace + 1);
            &&& (r is NoMatch <==> !opened)
            &&& (r matches ParseOutcome::Matched(item, np) ==> opened && stop < s@.len()
                && s@[stop] == '}' && np == stop + 1 && (item matches RootItem::Sections { list }
                && sections_view(list@) == entries))
            &&& (r matches ParseOutcome::Fatal(e) ==> opened && !(stop < s@.len() && s@[stop]
                == '}') && (e matches ParseError::UnclosedBlock(at) && at == stop))
        }),
        r matches ParseOutcome::Matched(item, np) ==> pos < np <= s@.len() && s@[np - 1] == '}',
        pos == s@.len() ==> r is NoMatch,
{
    let len = s.unicode_len();
    let p1 = match lit_at(s, pos, "SECTIONS") {
        Option::None => {
            return ParseOutcome::NoMatch;
        },
        Option::Some(x) => x,
    };
    let p2 = skip_ws(s, p1);
    if !(p2 < len && s.get_char(p2) == '{') {
        return ParseOutcome::NoMatch;
    }
    let mut list: Vec<SectionCommand> = Vec::new();
    let mut cur = p2 + 1;
    proof {
        assert(sections_scan(s@, p2 + 1).0 =~= sections_view(list@) + sections_scan(
            s@,
            cur as int,
        ).0);
    }
    loop
        invariant
            len == s@.len(),
            pos < cur <= len,
            block_opener(s@, pos as int, "SECTIONS"@),
            p2 == ws_end(s@, pos + "SECTIONS"@.len()),
            p2 + 1 <= cur,
            sections_scan(s@, p2 + 1).0 == sections_view(list@) + sections_scan(s@, cur as int).0,
            sections_scan(s@, p2 + 1).1 == sections_scan(s@, cur as int).1,
        decreases len - cur,
    {
        let wp = skip_ws(s, cur);
        match section_command_at(s, wp) {
            Option::Some((sc, np)) => {
                proof {
                    assert(sections_scan(s@, cur as int).0 == seq![(sc.name@, sc.body@)]
                        + sections_scan(s@, np as int).0);
                    assert(sections_view(list@.push(sc)) =~= sections_view(list@) + seq![
                        (sc.name@, sc.body@),
                    ]);
                    assert(sections_view(list@) + (seq![(sc.name@, sc.body@)] + sections_scan(
                        s@,
                        np as int,
                    ).0) =~= (sections_view(list@) + seq![(sc.name@, sc.body@)]) + sections_scan(
                        s@,
                        np as int,
                    ).0);
                }
                list.push(sc);
                cur = np;
            },
            Option::None => {
                proof {
                    assert(sections_scan(s@, cur as int) == (
                        Seq::<(Seq<char>, Seq<char>)>::empty(),
                        wp as int,
                    ));
                    assert(sections_scan(s@, p2 + 1).0 =~= sections_view(list@));
                }
                if wp < len && s.get_char(wp) == '}' {
                    return ParseOutcome::Matched(RootItem::Sections { list }, wp + 1);
                } else {
                    return ParseOutcome::Fatal(ParseError::UnclosedBlock(wp));
                }
            },
        }
    }
}

/// A `MEMORY` or a `SECTIONS` block is opened at `pos`.
pub open spec fn any_block_opener(s: Seq<char>, pos: int) -> bool {
    block_opener(s, pos, "MEMORY"@) || block_opener(s, pos, "SECTIONS"@)
}

/// What the dispatcher reads at `pos`: the first of statement, `MEMORY`
/// block, `SECTIONS` block and command, in that fixed priority order, to
/// report other than a soft no-match.
pub open spec fn root_token(s: Seq<char>, pos: int) -> OutcomeView {
    match statement_token(s, pos) {
        Option::Some((n, ev, end)) => OutcomeView::Matched(
            ItemView::Statement(n, AssignOperator::Equals, ev),
            end,
        ),
        Option::None => {
            let mem = memory_token(s, pos);
            if !(mem is NoMatch) {
                mem
            } else {
                let sec = sections_token(s, pos);
                if !(sec is NoMatch) {
                    sec
                } else {
                    match command_token(s, pos) {
                        Option::Some((n, args, end)) => OutcomeView::Matched(
                            ItemView::Command(n, args),
                            end,
                        ),
                        Option::None => OutcomeView::NoMatch,
                    }
                }
            }
        },
    }
}

/// Try the recognizers in fixed priority order — statement, `MEMORY` block,
/// `SECTIONS` block, command — and report the first outcome that is not a
/// soft no-match: the outcome is exactly [`root_token`]. A soft no-match of
/// all four recognizers never hides an opened block: an opened block either
/// finishes or fails the parse.
pub fn root_item(s: &str, pos: usize) -> (r: ParseOutcome)
    requires
        pos <= s@.len(),
    ensures
        outcome_view(r) == root_token(s@, pos as int),
        r matches ParseOutcome::Matched(item, np) ==> pos < np <= s@.len(),
        r is NoMatch ==> !any_block_opener(s@, pos as int),
        r matches ParseOutcome::Fatal(e) ==> any_block_opener(s@, pos as int),
        pos == s@.len() ==> r is NoMatch,
{
    match statement_item(s, pos) {
        ParseOutcome::NoMatch => {},
        other => {
            return other;
        },
    }
    match memory_item(s, pos) {
        ParseOutcome::NoMatch => {},
        other => {
            return other;
        },
    }
    match sections_item(s, pos) {
        ParseOutcome::NoMatch => {},
        other => {
            return other;
        },
    }
    command_item(s, pos)
}

/// The ordered root items readable from `pos`, each preceded by skippable
/// whitespace — the scan ends cleanly at the first position where no root
/// item matches — or the position at which an opened block misses its
/// closing delimiter.
pub open spec fn parse_spec(s: Seq<char>, pos: int) -> Result<Seq<ItemView>, int>
    decreases s.len() - pos,
    when 0 <= pos <= s.len()
    via parse_spec_decreases
{
    let wp = ws_end(s, pos);
    match root_token(s, wp) {
        OutcomeView::NoMatch => Result::Ok(Seq::<ItemView>::empty()),
        OutcomeView::Fatal(at) => Result::Err(at),
        OutcomeView::Matched(item, np) => {
            if wp < np <= s.len() {
                match parse_spec(s, np) {
                    Result::Ok(rest) => Result::Ok(seq![item] + rest),
                    Result::Err(at) => Result::Err(at),
                }
            } else {
                Result::Ok(seq![item])
            }
        },
    }
}

#[via_fn]
proof fn parse_spec_decreases(s: Seq<char>, pos: int) {
    lemma_ws_scan_bounds(s, pos, Option::None);
}

/// Parse a whole source text into its ordered list of root items: exactly
/// the items that [`parse_spec`] reads from position 0, one per recognized
/// construct, in source order.
///
/// The accumulator is created afresh and reset on entry, so nothing ever
/// leaks from one parse call into the next; the result is pinned by
/// `parse_spec` of the input alone, so two calls on equal inputs yield the
/// same outcome. Parsing stops cleanly at the first position where no root
/// item matches; trailing content that matches nothing is ignored rather
/// than rejected. A hard failure — a `MEMORY` or `SECTIONS` block that was
/// opened but never closed — aborts the whole parse instead of returning a
/// truncated list, and the error carries the position at which the closing
/// delimiter was expected.
pub fn parse(input: &str) -> (r: Result<Vec<RootItem>, ParseError>)
    ensures
        match r {
            Result::Ok(items) => parse_spec(input@, 0) == Result::<Seq<ItemView>, int>::Ok(
                items_view(items@),
            ),
            Result::Err(e) => (e matches ParseError::UnclosedBlock(at) && parse_spec(input@, 0)
                == Result::<Seq<ItemView>, int>::Err(at as int)),
        },
        blank(input@) ==> (r matches Result::Ok(items) && items@.len() == 0),
        r matches Result::Err(e) ==> exists|p: int|
            0 <= p <= input@.len() && #[trigger] any_block_opener(input@, p),
        any_block_opener(input@, ws_end(input@, 0)) ==> match r {
            Result::Ok(items) => items@.len() >= 1,
            Result::Err(e) => true,
        },
{
    let mut state = ParseState { items: Vec::new() };
    clear_state(&mut state);
    let len = input.unicode_len();
    let mut pos: usize = 0;
    proof {
        assert(items_view(state.items@) =~= Seq::<ItemView>::empty());
        if parse_spec(input@, 0) is Ok {
            assert(items_view(state.items@) + parse_spec(input@, 0)->Ok_0 =~= parse_spec(
                input@,
                0,
            )->Ok_0);
        }
    }
    loop
        invariant
            len == input@.len(),
            pos <= len,
            blank(input@) ==> state.items@.len() == 0 && ws_end(input@, pos as int) == len,
            any_block_opener(input@, ws_end(input@, 0)) ==> (pos == 0 || state.items@.len() >= 1),
            match parse_spec(input@, pos as int) {
                Result::Ok(rest) => parse_spec(input@, 0) == Result::<Seq<ItemView>, int>::Ok(
                    items_view(state.items@) + rest,
                ),
                Result::Err(at) => parse_spec(input@, 0) == Result::<Seq<ItemView>, int>::Err(at),
            },
        decreases len - pos,
    {
        let wp = skip_ws(input, pos);
        match root_item(input, wp) {
            ParseOutcome::Matched(item, np) => {
                proof {
                    assert(root_token(input@, wp as int) == OutcomeView::Matched(
                        item_view(item),
                        np as int,
                    ));
                    if parse_spec(input@, np as int) is Ok {
                        let rest2 = parse_spec(input@, np as int)->Ok_0;
                        assert(parse_spec(input@, pos as int) == Result::<Seq<ItemView>, int>::Ok(
                            seq![item_view(item)] + rest2,
                        ));
                        assert(items_view(state.items@.push(item)) =~= items_view(state.items@)
                            + seq![item_view(item)]);
                        assert(items_view(state.items@) + (seq![item_view(item)] + rest2) =~= (
                        items_view(state.items@) + seq![item_view(item)]) + rest2);
                    }
                }
                state.items.push(item);
                pos = np;
            },
            ParseOutcome::NoMatch => {
                proof {
                    assert(parse_spec(input@, pos as int) == Result::<Seq<ItemView>, int>::Ok(
                        Seq::<ItemView>::empty(),
                    ));
                    assert(items_view(state.items@) + Seq::<ItemView>::empty() =~= items_view(
                        state.items@,
                    ));
                }
                return Ok(state.items);
            },
            ParseOutcome::Fatal(e) => {
                proof {
                    assert(0 <= wp as int <= input@.len() && any_block_opener(input@, wp as int));
                }
                return Err(e);
            },
        }
    }
}

} // verus!
