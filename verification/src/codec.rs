//! The persisted format: a canonical textual rendering of the task list and
//! its parser, with a proved round trip.
//!
//! A list is persisted as `[R,R,...,R]` (or `[]` when empty) where each
//! record `R` is `{"item":"<text>","done":<bool>,"position":<number>}`; in the
//! text, `"` and `\` are escaped with a backslash and every other character
//! stands for itself. The parser accepts exactly this form; anything else is
//! corrupt.

use vstd::prelude::*;
use vstd::string::{StrSliceExecFns, StringExecFns};

use crate::digits::{dec_rep, is_digit, parse_numeral, push_dec, scan_numeral};
use crate::strutil::{push_char, str_eq};
use crate::task::{views, TaskView, ToDo};

verus! {

/// The opening of a record, up to and including the quote that starts the
/// item text.
pub open spec fn lit_item() -> Seq<char> {
    seq!['{', '"', 'i', 't', 'e', 'm', '"', ':', '"']
}

/// The field separator between the item text's closing quote and the done
/// flag.
pub open spec fn lit_done() -> Seq<char> {
    seq![',', '"', 'd', 'o', 'n', 'e', '"', ':']
}

/// The field separator between the done flag and the position number.
pub open spec fn lit_pos() -> Seq<char> {
    seq![',', '"', 'p', 'o', 's', 'i', 't', 'i', 'o', 'n', '"', ':']
}

/// The rendering of a done flag.
pub open spec fn ser_bool(b: bool) -> Seq<char> {
    if b {
        seq!['t', 'r', 'u', 'e']
    } else {
        seq!['f', 'a', 'l', 's', 'e']
    }
}

/// Item text with `"` and `\` escaped by a backslash.
pub open spec fn esc(t: Seq<char>) -> Seq<char>
    decreases t.len(),
{
    if t.len() == 0 {
        Seq::empty()
    } else if t[0] == '"' || t[0] == '\\' {
        seq!['\\', t[0]] + esc(t.drop_first())
    } else {
        seq![t[0]] + esc(t.drop_first())
    }
}

/// The rendering of one task record.
pub open spec fn ser_task(t: TaskView) -> Seq<char> {
    lit_item() + esc(t.item) + seq!['"'] + lit_done() + ser_bool(t.done) + lit_pos() + dec_rep(
        t.position,
    ) + seq!['}']
}

/// The renderings of the tasks after the first, each preceded by a comma.
pub open spec fn ser_items(ts: Seq<TaskView>) -> Seq<char>
    decreases ts.len(),
{
    if ts.len() == 0 {
        Seq::empty()
    } else {
        seq![','] + ser_task(ts[0]) + ser_items(ts.drop_first())
    }
}

/// The rendering of a whole task list.
pub open spec fn ser(ts: Seq<TaskView>) -> Seq<char> {
    if ts.len() == 0 {
        seq!['[', ']']
    } else {
        seq!['['] + ser_task(ts[0]) + ser_items(ts.drop_first()) + seq![']']
    }
}

/// Matches the literal `lit` at position `i` and reports the position after
/// it.
pub open spec fn expect(s: Seq<char>, i: int, lit: Seq<char>) -> Option<int> {
    if 0 <= i && i + lit.len() <= s.len() && s.subrange(i, i + lit.len()) == lit {
        Some(i + lit.len())
    } else {
        None
    }
}

/// Parses an item text up to and including its closing quote, undoing the
/// escapes.
pub open spec fn parse_string_body(s: Seq<char>, i: int) -> Option<(Seq<char>, int)>
    decreases s.len() - i,
    when 0 <= i <= s.len()
{
    if i >= s.len() {
        None
    } else if s[i] == '"' {
        Some((Seq::empty(), i + 1))
    } else if s[i] == '\\' {
        if i + 1 < s.len() && (s[i + 1] == '"' || s[i + 1] == '\\') {
            match parse_string_body(s, i + 2) {
                Some(tj) => Some((seq![s[i + 1]] + tj.0, tj.1)),
                None => None,
            }
        } else {
            None
        }
    } else {
        match parse_string_body(s, i + 1) {
            Some(tj) => Some((seq![s[i]] + tj.0, tj.1)),
            None => None,
        }
    }
}

/// Parses a done flag.
pub open spec fn parse_bool(s: Seq<char>, i: int) -> Option<(bool, int)> {
    match expect(s, i, ser_bool(true)) {
        Some(j) => Some((true, j)),
        None => match expect(s, i, ser_bool(false)) {
            Some(j) => Some((false, j)),
            None => None,
        },
    }
}

/// Parses one task record starting at `i`.
pub open spec fn parse_task(s: Seq<char>, i: int) -> Option<(TaskView, int)> {
    match expect(s, i, lit_item()) {
        Some(i1) => match parse_string_body(s, i1) {
            Some(item_i2) => match expect(s, item_i2.1, lit_done()) {
                Some(i3) => match parse_bool(s, i3) {
                    Some(done_i4) => match expect(s, done_i4.1, lit_pos()) {
                        Some(i5) => match parse_numeral(s, i5) {
                            Some(pos_i6) => match expect(s, pos_i6.1, seq!['}']) {
                                Some(i7) => Some(
                                    (
                                        TaskView {
                                            item: item_i2.0,
                                            done: done_i4.0,
                                            position: pos_i6.0,
                                        },
                                        i7,
                                    ),
                                ),
                                None => None,
                            },
                            None => None,
                        },
                        None => None,
                    },
                    None => None,
                },
                None => None,
            },
            None => None,
        },
        None => None,
    }
}

/// A successful text parse always advances and stays inside the text.
pub proof fn lemma_parse_string_body_bounds(s: Seq<char>, i: int)
    requires
        0 <= i <= s.len(),
    ensures
        parse_string_body(s, i) matches Some(tj) ==> i < tj.1 <= s.len(),
    decreases s.len() - i,
{
    if i >= s.len() {
    } else if s[i] == '"' {
    } else if s[i] == '\\' {
        if i + 1 < s.len() && (s[i + 1] == '"' || s[i + 1] == '\\') {
            lemma_parse_string_body_bounds(s, i + 2);
        }
    } else {
        lemma_parse_string_body_bounds(s, i + 1);
    }
}

/// A successful record parse always advances and stays inside the text.
pub proof fn lemma_parse_task_bounds(s: Seq<char>, i: int)
    ensures
        parse_task(s, i) matches Some(tj) ==> i < tj.1 <= s.len(),
{
    match expect(s, i, lit_item()) {
        Some(i1) => {
            lemma_parse_string_body_bounds(s, i1);
            match parse_string_body(s, i1) {
                Some(item_i2) => match expect(s, item_i2.1, lit_done()) {
                    Some(i3) => match parse_bool(s, i3) {
                        Some(done_i4) => match expect(s, done_i4.1, lit_pos()) {
                            Some(i5) => {
                                crate::digits::lemma_parse_digits_bounds(s, i5, 0);
                            },
                            None => {},
                        },
                        None => {},
                    },
                    None => {},
                },
                None => {},
            }
        },
        None => {},
    }
}

/// Parses `]`, or `,` followed by a record and the rest of the list; reports
/// the records and the position after the closing bracket.
pub open spec fn parse_tasks_rest(s: Seq<char>, i: int) -> Option<(Seq<TaskView>, int)>
    decreases s.len() - i,
    when 0 <= i <= s.len()
    via parse_tasks_rest_decreases
{
    if expect(s, i, seq![']']) is Some {
        Some((Seq::empty(), i + 1))
    } else {
        match expect(s, i, seq![',']) {
            Some(i1) => match parse_task(s, i1) {
                Some(tj) => match parse_tasks_rest(s, tj.1) {
                    Some(rest_j) => Some((seq![tj.0] + rest_j.0, rest_j.1)),
                    None => None,
                },
                None => None,
            },
            None => None,
        }
    }
}

#[via_fn]
proof fn parse_tasks_rest_decreases(s: Seq<char>, i: int) {
    match expect(s, i, seq![',']) {
        Some(i1) => {
            lemma_parse_task_bounds(s, i1);
        },
        None => {},
    }
}

/// Parses a whole persisted list: brackets, records, and nothing after the
/// closing bracket.
pub open spec fn parse_all(s: Seq<char>) -> Option<Seq<TaskView>> {
    if s == seq!['[', ']'] {
        Some(Seq::<TaskView>::empty())
    } else {
        match expect(s, 0, seq!['[']) {
            Some(i1) => match parse_task(s, i1) {
                Some(tj) => match parse_tasks_rest(s, tj.1) {
                    Some(rest_j) => if rest_j.1 == s.len() {
                        Some(seq![tj.0] + rest_j.0)
                    } else {
                        None
                    },
                    None => None,
                },
                None => None,
            },
            None => None,
        }
    }
}

/// A subrange of a subrange of `s` is the matching subrange of `s`.
proof fn lemma_subrange_piece(s: Seq<char>, i: int, whole: Seq<char>, off: int, piece: Seq<char>)
    requires
        0 <= i,
        i + whole.len() <= s.len(),
        s.subrange(i, i + whole.len()) == whole,
        0 <= off,
        off + piece.len() <= whole.len(),
        whole.subrange(off, off + piece.len()) == piece,
    ensures
        s.subrange(i + off, i + off + piece.len()) == piece,
{
    assert forall|k: int| 0 <= k < piece.len() implies s.subrange(
        i + off,
        i + off + piece.len(),
    )[k] == piece[k] by {
        assert(s.subrange(i, i + whole.len())[off + k] == whole[off + k]);
        assert(whole.subrange(off, off + piece.len())[k] == whole[off + k]);
    }
    assert(s.subrange(i + off, i + off + piece.len()) =~= piece);
}

/// Parsing the escaped form of a text, up to its closing quote, yields the
/// text back.
pub proof fn lemma_parse_string_body_esc(s: Seq<char>, i: int, t: Seq<char>)
    requires
        0 <= i,
        i + esc(t).len() + 1 <= s.len(),
        s.subrange(i, i + esc(t).len()) == esc(t),
        s[i + esc(t).len()] == '"',
    ensures
        parse_string_body(s, i) == Some((t, i + esc(t).len() + 1)),
    decreases t.len(),
{
    let e = esc(t);
    if t.len() == 0 {
        assert(s[i] == '"');
    } else {
        let c = t[0];
        let rest = t.drop_first();
        let er = esc(rest);
        let erl = er.len() as int;
        if c == '"' || c == '\\' {
            assert(e == seq!['\\', c] + er);
            assert(s[i] == '\\') by {
                assert(s.subrange(i, i + e.len())[0] == e[0]);
            }
            assert(s[i + 1] == c) by {
                assert(s.subrange(i, i + e.len())[1] == e[1]);
            }
            assert(s.subrange(i + 2, i + 2 + erl) == er) by {
                assert(e.subrange(2, 2 + erl) =~= er);
                lemma_subrange_piece(s, i, e, 2, e.subrange(2, 2 + erl));
            }
            assert(s[i + 2 + erl] == '"');
            lemma_parse_string_body_esc(s, i + 2, rest);
            assert(seq![s[i + 1]] + rest =~= t);
        } else {
            assert(e == seq![c] + er);
            assert(s[i] == c) by {
                assert(s.subrange(i, i + e.len())[0] == e[0]);
            }
            assert(s.subrange(i + 1, i + 1 + erl) == er) by {
                assert(e.subrange(1, 1 + erl) =~= er);
                lemma_subrange_piece(s, i, e, 1, e.subrange(1, 1 + erl));
            }
            assert(s[i + 1 + erl] == '"');
            lemma_parse_string_body_esc(s, i + 1, rest);
            assert(seq![s[i]] + rest =~= t);
        }
    }
}

/// Parsing the rendering of one record yields the record back.
pub proof fn lemma_parse_task_ser(s: Seq<char>, i: int, t: TaskView)
    requires
        0 <= i,
        i + ser_task(t).len() <= s.len(),
        s.subrange(i, i + ser_task(t).len()) == ser_task(t),
        t.position <= usize::MAX,
    ensures
        parse_task(s, i) == Some((t, i + ser_task(t).len())),
{
    let w = ser_task(t);
    let e = esc(t.item).len() as int;
    let b = ser_bool(t.done).len() as int;
    let d = dec_rep(t.position).len() as int;
    crate::digits::lemma_dec_rep_digits(t.position);
    assert(w.len() == 31 + e + b + d);

    assert(w.subrange(0, 9) =~= lit_item());
    lemma_subrange_piece(s, i, w, 0, lit_item());
    assert(expect(s, i, lit_item()) == Some(i + 9));

    assert(w.subrange(9, 9 + e) =~= esc(t.item));
    lemma_subrange_piece(s, i, w, 9, esc(t.item));
    assert(s[i + 9 + e] == '"') by {
        assert(s.subrange(i, i + w.len())[9 + e] == w[9 + e]);
    }
    lemma_parse_string_body_esc(s, i + 9, t.item);
    let i2 = i + 10 + e;
    assert(parse_string_body(s, i + 9) == Some((t.item, i2)));

    assert(w.subrange(10 + e, 18 + e) =~= lit_done());
    lemma_subrange_piece(s, i, w, 10 + e, lit_done());
    assert(expect(s, i2, lit_done()) == Some(i + 18 + e));
    let i3 = i + 18 + e;

    assert(w.subrange(18 + e, 18 + e + b) =~= ser_bool(t.done));
    lemma_subrange_piece(s, i, w, 18 + e, ser_bool(t.done));
    if t.done {
        assert(expect(s, i3, ser_bool(true)) == Some(i3 + 4));
    } else {
        assert(s[i3] == 'f') by {
            assert(s.subrange(i3, i3 + b)[0] == ser_bool(false)[0]);
        }
        if i3 + 4 <= s.len() {
            assert(s.subrange(i3, i3 + 4)[0] == 'f');
            assert(ser_bool(true)[0] == 't');
            assert(s.subrange(i3, i3 + 4) != ser_bool(true));
        }
        assert(expect(s, i3, ser_bool(true)) is None);
        assert(expect(s, i3, ser_bool(false)) == Some(i3 + 5));
    }
    assert(parse_bool(s, i3) == Some((t.done, i3 + b)));
    let i4 = i3 + b;

    assert(w.subrange(18 + e + b, 30 + e + b) =~= lit_pos());
    lemma_subrange_piece(s, i, w, 18 + e + b, lit_pos());
    assert(expect(s, i4, lit_pos()) == Some(i4 + 12));
    let i5 = i4 + 12;

    assert(w.subrange(30 + e + b, 30 + e + b + d) =~= dec_rep(t.position));
    lemma_subrange_piece(s, i, w, 30 + e + b, dec_rep(t.position));
    let i6 = i5 + d;
    assert(s[i6] == '}') by {
        assert(s.subrange(i, i + w.len())[30 + e + b + d] == w[30 + e + b + d]);
    }
    assert(!is_digit('}'));
    crate::digits::lemma_parse_numeral_dec_rep(s, i5, t.position);
    assert(parse_numeral(s, i5) == Some((t.position, i6)));

    assert(s.subrange(i6, i6 + 1) =~= seq!['}']);
    assert(expect(s, i6, seq!['}']) == Some(i6 + 1));

    assert((TaskView { item: t.item, done: t.done, position: t.position }) =~= t);
}

/// A record rendering is never as short as the empty list's rendering.
proof fn lemma_ser_task_len(t: TaskView)
    ensures
        ser_task(t).len() >= 36,
{
    crate::digits::lemma_dec_rep_digits(t.position);
}

/// Parsing the rendering of the tasks after the first, followed by the
/// closing bracket, yields those tasks back.
pub proof fn lemma_parse_items_ser(s: Seq<char>, i: int, ts: Seq<TaskView>)
    requires
        0 <= i,
        i + ser_items(ts).len() + 1 <= s.len(),
        s.subrange(i, i + ser_items(ts).len() + 1) == ser_items(ts) + seq![']'],
        forall|k: int| 0 <= k < ts.len() ==> (#[trigger] ts[k]).position <= usize::MAX,
    ensures
        parse_tasks_rest(s, i) == Some((ts, i + ser_items(ts).len() + 1)),
    decreases ts.len(),
{
    let w = ser_items(ts) + seq![']'];
    if ts.len() == 0 {
        assert(w =~= seq![']']);
        assert(s.subrange(i, i + 1) == seq![']']);
        assert(expect(s, i, seq![']']) == Some(i + 1));
        assert(ts =~= Seq::<TaskView>::empty());
    } else {
        let t0 = ts[0];
        let rest = ts.drop_first();
        let stl = ser_task(t0).len() as int;
        let irl = ser_items(rest).len() as int;
        assert(ser_items(ts) == seq![','] + ser_task(t0) + ser_items(rest));
        assert(w.len() == 2 + stl + irl);
        assert(s[i] == ',') by {
            assert(s.subrange(i, i + w.len())[0] == w[0]);
        }
        assert(expect(s, i, seq![']']) is None) by {
            assert(s.subrange(i, i + 1)[0] == ',');
            assert(seq![']'][0] == ']');
        }
        assert(s.subrange(i, i + 1) =~= seq![',']);
        assert(expect(s, i, seq![',']) == Some(i + 1));
        assert(w.subrange(1, 1 + stl) =~= ser_task(t0));
        lemma_subrange_piece(s, i, w, 1, ser_task(t0));
        lemma_parse_task_ser(s, i + 1, t0);
        let j = i + 1 + stl;
        assert(parse_task(s, i + 1) == Some((t0, j)));
        assert(w.subrange(1 + stl, 2 + stl + irl) =~= ser_items(rest) + seq![']']);
        lemma_subrange_piece(s, i, w, 1 + stl, ser_items(rest) + seq![']']);
        assert forall|k: int| 0 <= k < rest.len() implies (#[trigger] rest[k]).position
            <= usize::MAX by {
            assert(rest[k] == ts[k + 1]);
        }
        lemma_parse_items_ser(s, j, rest);
        assert(parse_tasks_rest(s, j) == Some((rest, j + irl + 1)));
        assert(seq![t0] + rest =~= ts);
    }
}

/// Parsing the rendering of a whole list yields the list back, provided each
/// position fits the machine word.
pub proof fn lemma_parse_all_ser(ts: Seq<TaskView>)
    requires
        forall|k: int| 0 <= k < ts.len() ==> (#[trigger] ts[k]).position <= usize::MAX,
    ensures
        parse_all(ser(ts)) == Some(ts),
{
    let s = ser(ts);
    if ts.len() == 0 {
        assert(ts =~= Seq::<TaskView>::empty());
    } else {
        let t0 = ts[0];
        let rest = ts.drop_first();
        let stl = ser_task(t0).len() as int;
        let irl = ser_items(rest).len() as int;
        lemma_ser_task_len(t0);
        assert(s.len() == 2 + stl + irl);
        assert(s != seq!['[', ']']) by {
            assert(seq!['[', ']'].len() == 2);
        }
        assert(s[0] == '[');
        assert(s.subrange(0, 1) =~= seq!['[']);
        assert(expect(s, 0, seq!['[']) == Some(1int));
        assert(s.subrange(1, 1 + stl) =~= ser_task(t0));
        lemma_parse_task_ser(s, 1, t0);
        let j = 1 + stl;
        assert(s.subrange(j, j + irl + 1) =~= ser_items(rest) + seq![']']);
        assert forall|k: int| 0 <= k < rest.len() implies (#[trigger] rest[k]).position
            <= usize::MAX by {
            assert(rest[k] == ts[k + 1]);
        }
        lemma_parse_items_ser(s, j, rest);
        assert(parse_tasks_rest(s, j) == Some((rest, s.len() as int)));
        assert(seq![t0] + rest =~= ts);
    }
}

/// Round trip: the rendering of any well-formed task list (positions equal to
/// indices) parses back to exactly that list.
pub proof fn lemma_save_load_round_trip(ts: Seq<TaskView>)
    requires
        crate::task::positions_ok(ts),
        ts.len() <= usize::MAX,
    ensures
        deser(ser(ts)) == Some(ts),
{
    assert forall|k: int| 0 <= k < ts.len() implies (#[trigger] ts[k]).position
        <= usize::MAX by {
        assert(ts[k].position == k);
    }
    lemma_parse_all_ser(ts);
}

/// What a persisted text means: the parsed records, provided their position
/// fields are exactly the indices; anything else is corrupt.
pub open spec fn deser(s: Seq<char>) -> Option<Seq<TaskView>> {
    match parse_all(s) {
        Some(ts) => if crate::task::positions_ok(ts) {
            Some(ts)
        } else {
            None
        },
        None => None,
    }
}

/// Appends the escaped form of the item text, reading from index `i` on.
fn push_esc_from(out: &mut String, t: &str, i: usize)
    requires
        i <= t@.len(),
    ensures
        final(out)@ == old(out)@ + esc(t@.skip(i as int)),
    decreases t@.len() - i,
{
    let n = t.unicode_len();
    if i == n {
        proof {
            assert(t@.skip(i as int) =~= Seq::<char>::empty());
            assert(old(out)@ + esc(Seq::<char>::empty()) =~= old(out)@);
        }
        return ;
    }
    let c = t.get_char(i);
    if c == '"' || c == '\\' {
        push_char(out, '\\');
        push_char(out, c);
    } else {
        push_char(out, c);
    }
    push_esc_from(out, t, i + 1);
    proof {
        let rest = t@.skip(i as int);
        assert(rest[0] == c);
        assert(rest.drop_first() =~= t@.skip(i as int + 1));
        assert(out@ =~= old(out)@ + esc(rest));
    }
}

/// Appends the rendering of one record.
fn push_task(out: &mut String, t: &ToDo)
    ensures
        final(out)@ == old(out)@ + ser_task(t@),
{
    out.append("{\"item\":\"");
    proof {
        reveal_strlit("{\"item\":\"");
        assert(("{\"item\":\""@) =~= lit_item());
    }
    push_esc_from(out, t.item.as_str(), 0);
    proof {
        assert(t.item@.skip(0) =~= t.item@);
    }
    push_char(out, '"');
    out.append(",\"done\":");
    proof {
        reveal_strlit(",\"done\":");
        assert((",\"done\":"@) =~= lit_done());
    }
    if t.done {
        out.append("true");
        proof {
            reveal_strlit("true");
            assert(("true"@) =~= ser_bool(true));
        }
    } else {
        out.append("false");
        proof {
            reveal_strlit("false");
            assert(("false"@) =~= ser_bool(false));
        }
    }
    out.append(",\"position\":");
    proof {
        reveal_strlit(",\"position\":");
        assert((",\"position\":"@) =~= lit_pos());
    }
    push_dec(out, t.position);
    push_char(out, '}');
    proof {
        assert(out@ =~= old(out)@ + ser_task(t@));
    }
}

/// Appends the renderings of the tasks from index `i` on, each preceded by a
/// comma.
fn push_items_from(out: &mut String, tasks: &Vec<ToDo>, i: usize)
    requires
        1 <= i <= tasks@.len(),
    ensures
        final(out)@ == old(out)@ + ser_items(views(tasks@).skip(i as int)),
    decreases tasks@.len() - i,
{
    if i == tasks.len() {
        proof {
            assert(views(tasks@).skip(i as int) =~= Seq::<TaskView>::empty());
            assert(old(out)@ + ser_items(Seq::<TaskView>::empty()) =~= old(out)@);
        }
        return ;
    }
    push_char(out, ',');
    push_task(out, &tasks[i]);
    push_items_from(out, tasks, i + 1);
    proof {
        let vs = views(tasks@);
        let rest = vs.skip(i as int);
        assert(rest[0] == vs[i as int]);
        assert(vs[i as int] == tasks@[i as int]@);
        assert(rest.drop_first() =~= vs.skip(i as int + 1));
        assert(out@ =~= old(out)@ + ser_items(rest));
    }
}

/// Renders a whole task list in the persisted format.
pub fn serialize_tasks(tasks: &Vec<ToDo>) -> (out: String)
    ensures
        out@ == ser(views(tasks@)),
{
    let mut out = String::new();
    if tasks.len() == 0 {
        out.append("[]");
        proof {
            reveal_strlit("[]");
            assert(("[]"@) =~= seq!['[', ']']);
            assert(out@ =~= ser(views(tasks@)));
        }
        return out;
    }
    push_char(&mut out, '[');
    push_task(&mut out, &tasks[0]);
    push_items_from(&mut out, tasks, 1);
    push_char(&mut out, ']');
    proof {
        let vs = views(tasks@);
        assert(vs[0] == tasks@[0]@);
        assert(vs.skip(1) =~= vs.drop_first());
        assert(out@ =~= ser(vs));
    }
    out
}

/// Matches the literal `lit` at position `i`.
fn expect_lit(s: &str, i: usize, lit: &str) -> (r: Option<usize>)
    requires
        i <= s@.len(),
    ensures
        match r {
            Some(j) => expect(s@, i as int, lit@) == Some(j as int) && i <= j <= s@.len(),
            None => expect(s@, i as int, lit@) is None,
        },
{
    let n = s.unicode_len();
    let ll = lit.unicode_len();
    if ll > n - i {
        return None;
    }
    let mut k: usize = 0;
    while k < ll
        invariant
            0 <= k <= ll,
            i + ll <= n,
            n == s@.len(),
            ll == lit@.len(),
            forall|m: int| 0 <= m < k ==> s@[i + m] == lit@[m],
        decreases ll - k,
    {
        if s.get_char(i + k) != lit.get_char(k) {
            proof {
                if s@.subrange(i as int, i + lit@.len()) == lit@ {
                    assert(s@.subrange(i as int, i + lit@.len())[k as int] == lit@[k as int]);
                }
            }
            return None;
        }
        k = k + 1;
    }
    proof {
        assert(s@.subrange(i as int, i + lit@.len()) =~= lit@);
    }
    Some(i + ll)
}

/// Parses an item text up to and including its closing quote, undoing the
/// escapes.
fn parse_string_exec(s: &str, i: usize) -> (r: Option<(String, usize)>)
    requires
        i <= s@.len(),
    ensures
        match r {
            Some(tj) => parse_string_body(s@, i as int) == Some((tj.0@, tj.1 as int)) && i < tj.1
                <= s@.len(),
            None => parse_string_body(s@, i as int) is None,
        },
{
    let n = s.unicode_len();
    let mut acc = String::new();
    let mut j: usize = i;
    loop
        invariant
            i <= j <= n,
            n == s@.len(),
            parse_string_body(s@, i as int) == (match parse_string_body(s@, j as int) {
                Some(tj) => Some((acc@ + tj.0, tj.1)),
                None => None::<(Seq<char>, int)>,
            }),
        decreases n - j,
    {
        if j == n {
            return None;
        }
        let c = s.get_char(j);
        if c == '"' {
            proof {
                assert(acc@ + Seq::<char>::empty() =~= acc@);
            }
            return Some((acc, j + 1));
        }
        if c == '\\' {
            if j + 1 < n {
                let c2 = s.get_char(j + 1);
                if c2 == '"' || c2 == '\\' {
                    let ghost acc0 = acc@;
                    push_char(&mut acc, c2);
                    proof {
                        match parse_string_body(s@, j + 2) {
                            Some(tj) => {
                                assert(acc0 + (seq![c2] + tj.0) =~= acc0.push(c2) + tj.0);
                            },
                            None => {},
                        }
                    }
                    j = j + 2;
                } else {
                    return None;
                }
            } else {
                return None;
            }
        } else {
            let ghost acc0 = acc@;
            push_char(&mut acc, c);
            proof {
                match parse_string_body(s@, j + 1) {
                    Some(tj) => {
                        assert(acc0 + (seq![c] + tj.0) =~= acc0.push(c) + tj.0);
                    },
                    None => {},
                }
            }
            j = j + 1;
        }
    }
}

/// Parses one task record starting at `i`.
fn parse_task_exec(s: &str, i: usize) -> (r: Option<(ToDo, usize)>)
    requires
        i <= s@.len(),
    ensures
        match r {
            Some(tj) => parse_task(s@, i as int) == Some((tj.0@, tj.1 as int)) && i < tj.1
                <= s@.len(),
            None => parse_task(s@, i as int) is None,
        },
{
    proof {
        reveal_strlit("{\"item\":\"");
        assert(("{\"item\":\""@) =~= lit_item());
        reveal_strlit(",\"done\":");
        assert((",\"done\":"@) =~= lit_done());
        reveal_strlit(",\"position\":");
        assert((",\"position\":"@) =~= lit_pos());
        reveal_strlit("true");
        assert(("true"@) =~= ser_bool(true));
        reveal_strlit("false");
        assert(("false"@) =~= ser_bool(false));
        reveal_strlit("}");
        assert(("}"@) =~= seq!['}']);
    }
    let i1 = match expect_lit(s, i, "{\"item\":\"") {
        Some(j) => j,
        None => {
            return None;
        },
    };
    let (item, i2) = match parse_string_exec(s, i1) {
        Some(tj) => tj,
        None => {
            return None;
        },
    };
    let i3 = match expect_lit(s, i2, ",\"done\":") {
        Some(j) => j,
        None => {
            return None;
        },
    };
    let (done, i4) = match expect_lit(s, i3, "true") {
        Some(j) => (true, j),
        None => match expect_lit(s, i3, "false") {
            Some(j) => (false, j),
            None => {
                return None;
            },
        },
    };
    let i5 = match expect_lit(s, i4, ",\"position\":") {
        Some(j) => j,
        None => {
            return None;
        },
    };
    let (position, i6) = match scan_numeral(s, i5) {
        Some(vj) => vj,
        None => {
            return None;
        },
    };
    let i7 = match expect_lit(s, i6, "}") {
        Some(j) => j,
        None => {
            return None;
        },
    };
    let t = ToDo { item, done, position };
    proof {
        assert(t@ =~= parse_task(s@, i as int)->Some_0.0);
    }
    Some((t, i7))
}

/// Parses a whole persisted list.
pub fn parse_tasks(s: &str) -> (r: Option<Vec<ToDo>>)
    ensures
        match r {
            Some(v) => parse_all(s@) == Some(views(v@)),
            None => parse_all(s@) is None,
        },
{
    let n = s.unicode_len();
    proof {
        reveal_strlit("[]");
        assert(("[]"@) =~= seq!['[', ']']);
        reveal_strlit("[");
        assert(("["@) =~= seq!['[']);
        reveal_strlit("]");
        assert(("]"@) =~= seq![']']);
        reveal_strlit(",");
        assert((","@) =~= seq![',']);
    }
    if str_eq(s, "[]") {
        let v: Vec<ToDo> = Vec::new();
        proof {
            assert(views(v@) =~= Seq::<TaskView>::empty());
        }
        return Some(v);
    }
    let i1 = match expect_lit(s, 0, "[") {
        Some(j) => j,
        None => {
            return None;
        },
    };
    let (t0, mut j) = match parse_task_exec(s, i1) {
        Some(tj) => tj,
        None => {
            return None;
        },
    };
    let mut v: Vec<ToDo> = Vec::new();
    v.push(t0);
    proof {
        assert(views(v@) =~= seq![t0@]);
    }
    loop
        invariant
            j <= n,
            n == s@.len(),
            ("]"@) == seq![']'],
            (","@) == seq![','],
            parse_all(s@) == (match parse_tasks_rest(s@, j as int) {
                Some(rj) => if rj.1 == s@.len() {
                    Some(views(v@) + rj.0)
                } else {
                    None::<Seq<TaskView>>
                },
                None => None::<Seq<TaskView>>,
            }),
        decreases n - j,
    {
        match expect_lit(s, j, "]") {
            Some(j2) => {
                if j2 == n {
                    proof {
                        assert(views(v@) + Seq::<TaskView>::empty() =~= views(v@));
                    }
                    return Some(v);
                } else {
                    return None;
                }
            },
            None => {},
        }
        let j3 = match expect_lit(s, j, ",") {
            Some(j3) => j3,
            None => {
                return None;
            },
        };
        let (t, j4) = match parse_task_exec(s, j3) {
            Some(tj) => tj,
            None => {
                return None;
            },
        };
        let ghost v0 = v@;
        v.push(t);
        proof {
            assert(views(v@) =~= views(v0).push(t@));
            match parse_tasks_rest(s@, j4 as int) {
                Some(rj) => {
                    assert(views(v0) + (seq![t@] + rj.0) =~= views(v@) + rj.0);
                },
                None => {},
            }
        }
        j = j4;
    }
}

} // verus!
