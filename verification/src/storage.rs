//! The persistent state codec: a line-oriented structured-text rendering of
//! the whole aggregate, with a verified decoder that inverts the encoder.
//! Reading and writing the file itself happens outside the library; the
//! library only turns states into text and text back into states.
use vstd::prelude::*;
use vstd::string::StrSliceExecFns;
use vstd::string::StringExecFns;
use crate::model::{Note, NoteView, Project, ProjectView, StateView, Task, TaskView, TedoState};
use crate::text::{dec_digits, digit_val, digits_val, is_digit, u32_dec};

verus! {

// --- The shape of the document ------------------------------------------
//
// An encoded state is, in order: an optional `current_project = "..."` line,
// then one block per project. A project block is a `[[projects]]` header
// line, an `id = N` line, a `name = "..."` line, then one block per task
// (`[[projects.tasks]]`, id, description) and one per note
// (`[[projects.notes]]`, id, description, content). String bodies quote `"`
// and `\` with a backslash; every other character, line breaks included,
// stands for itself.
/// The opening of the current-project line, up to its opening quote.
pub open spec fn lit_current() -> Seq<char> {
    seq![
        'c',
        'u',
        'r',
        'r',
        'e',
        'n',
        't',
        '_',
        'p',
        'r',
        'o',
        'j',
        'e',
        'c',
        't',
        ' ',
        '=',
        ' ',
        '"',
    ]
}

/// The project block header line.
pub open spec fn lit_project_header() -> Seq<char> {
    seq!['[', '[', 'p', 'r', 'o', 'j', 'e', 'c', 't', 's', ']', ']', '\n']
}

/// The task block header line.
pub open spec fn lit_task_header() -> Seq<char> {
    seq![
        '[',
        '[',
        'p',
        'r',
        'o',
        'j',
        'e',
        'c',
        't',
        's',
        '.',
        't',
        'a',
        's',
        'k',
        's',
        ']',
        ']',
        '\n',
    ]
}

/// The note block header line.
pub open spec fn lit_note_header() -> Seq<char> {
    seq![
        '[',
        '[',
        'p',
        'r',
        'o',
        'j',
        'e',
        'c',
        't',
        's',
        '.',
        'n',
        'o',
        't',
        'e',
        's',
        ']',
        ']',
        '\n',
    ]
}

/// The opening of an id line, up to the first digit.
pub open spec fn lit_id() -> Seq<char> {
    seq!['i', 'd', ' ', '=', ' ']
}

/// The opening of a name line, up to its opening quote.
pub open spec fn lit_name() -> Seq<char> {
    seq!['n', 'a', 'm', 'e', ' ', '=', ' ', '"']
}

/// The opening of a description line, up to its opening quote.
pub open spec fn lit_description() -> Seq<char> {
    seq!['d', 'e', 's', 'c', 'r', 'i', 'p', 't', 'i', 'o', 'n', ' ', '=', ' ', '"']
}

/// The opening of a content line, up to its opening quote.
pub open spec fn lit_content() -> Seq<char> {
    seq!['c', 'o', 'n', 't', 'e', 'n', 't', ' ', '=', ' ', '"']
}

// --- Encoding -------------------------------------------------------------
/// How one character is written inside a quoted string.
pub open spec fn esc_char(c: char) -> Seq<char> {
    if c == '\\' {
        seq!['\\', '\\']
    } else if c == '"' {
        seq!['\\', '"']
    } else {
        seq![c]
    }
}

/// How a whole string body is written inside quotes.
pub open spec fn escape(t: Seq<char>) -> Seq<char>
    decreases t.len(),
{
    if t.len() == 0 {
        Seq::empty()
    } else {
        esc_char(t[0]) + escape(t.drop_first())
    }
}

/// A quoted string line: key, escaped body, closing quote, line break.
pub open spec fn enc_str_field(key: Seq<char>, t: Seq<char>) -> Seq<char> {
    key + escape(t) + seq!['"'] + seq!['\n']
}

/// An id line: key, decimal digits, line break.
pub open spec fn enc_id_line(n: u32) -> Seq<char> {
    lit_id() + dec_digits(n as nat) + seq!['\n']
}

/// One encoded task block.
pub open spec fn enc_task(t: TaskView) -> Seq<char> {
    lit_task_header() + enc_id_line(t.id) + enc_str_field(lit_description(), t.description)
}

/// The encoded task blocks of a project, in order.
pub open spec fn enc_tasks(ts: Seq<TaskView>) -> Seq<char>
    decreases ts.len(),
{
    if ts.len() == 0 {
        Seq::empty()
    } else {
        enc_task(ts[0]) + enc_tasks(ts.drop_first())
    }
}

/// One encoded note block.
pub open spec fn enc_note(n: NoteView) -> Seq<char> {
    lit_note_header() + enc_id_line(n.id) + enc_str_field(lit_description(), n.description)
        + enc_str_field(lit_content(), n.content)
}

/// The encoded note blocks of a project, in order.
pub open spec fn enc_notes(ns: Seq<NoteView>) -> Seq<char>
    decreases ns.len(),
{
    if ns.len() == 0 {
        Seq::empty()
    } else {
        enc_note(ns[0]) + enc_notes(ns.drop_first())
    }
}

/// One encoded project block with its task and note blocks.
pub open spec fn enc_project(p: ProjectView) -> Seq<char> {
    lit_project_header() + enc_id_line(p.id) + enc_str_field(lit_name(), p.name) + enc_tasks(
        p.tasks,
    ) + enc_notes(p.notes)
}

/// The encoded project blocks of a state, in order.
pub open spec fn enc_projects(ps: Seq<ProjectView>) -> Seq<char>
    decreases ps.len(),
{
    if ps.len() == 0 {
        Seq::empty()
    } else {
        enc_project(ps[0]) + enc_projects(ps.drop_first())
    }
}

/// The full encoded document of a state.
pub open spec fn spec_encode_state(v: StateView) -> Seq<char> {
    (match v.current_project {
        Some(n) => lit_current() + escape(n) + seq!['"'] + seq!['\n'],
        None => Seq::empty(),
    }) + enc_projects(v.projects)
}

// --- Parsing --------------------------------------------------------------
/// The document carries `lit` at position `i`.
pub open spec fn at_lit(s: Seq<char>, i: int, lit: Seq<char>) -> bool {
    0 <= i && i + lit.len() <= s.len() && s.subrange(i, i + lit.len()) == lit
}

/// The character an escape code stands for, when it is one.
pub open spec fn unesc_char(c: char) -> Option<char> {
    if c == '\\' {
        Some('\\')
    } else if c == '"' {
        Some('"')
    } else {
        None
    }
}

/// Reads a quoted string body from position `i` up to its closing quote,
/// appending to `acc`; yields the body and the position after the quote.
pub open spec fn parse_quoted(s: Seq<char>, i: int, acc: Seq<char>) -> Option<(Seq<char>, int)>
    decreases s.len() - i,
{
    if i < 0 || i >= s.len() {
        None
    } else if s[i] == '"' {
        Some((acc, i + 1))
    } else if s[i] == '\\' {
        if i + 1 >= s.len() {
            None
        } else {
            match unesc_char(s[i + 1]) {
                None => None,
                Some(c) => parse_quoted(s, i + 2, acc.push(c)),
            }
        }
    } else {
        parse_quoted(s, i + 1, acc.push(s[i]))
    }
}

/// Reads decimal digits from position `i` with accumulated value `acc`;
/// yields the value and the position after the digits, unless the value
/// outgrows a `u32`.
pub open spec fn parse_num_rest(s: Seq<char>, i: int, acc: nat) -> Option<(u32, int)>
    decreases s.len() - i,
{
    if 0 <= i < s.len() && is_digit(s[i]) {
        parse_num_rest(s, i + 1, acc * 10 + digit_val(s[i]))
    } else if acc <= u32::MAX {
        Some((acc as u32, i))
    } else {
        None
    }
}

/// Reads a number: at least one digit must stand at position `i`.
pub open spec fn parse_number(s: Seq<char>, i: int) -> Option<(u32, int)> {
    if 0 <= i < s.len() && is_digit(s[i]) {
        parse_num_rest(s, i, 0)
    } else {
        None
    }
}

/// Reads a `key "body"` line: the key with its opening quote, the quoted
/// body, and the closing line break.
pub open spec fn parse_str_field(s: Seq<char>, i: int, key: Seq<char>) -> Option<(Seq<char>, int)> {
    if at_lit(s, i, key) {
        match parse_quoted(s, i + key.len(), Seq::empty()) {
            None => None,
            Some((t, j)) => {
                if at_lit(s, j, seq!['\n']) {
                    Some((t, j + 1))
                } else {
                    None
                }
            },
        }
    } else {
        None
    }
}

/// Reads an `id = N` line.
pub open spec fn parse_id_line(s: Seq<char>, i: int) -> Option<(u32, int)> {
    if at_lit(s, i, lit_id()) {
        match parse_number(s, i + lit_id().len()) {
            None => None,
            Some((n, j)) => {
                if at_lit(s, j, seq!['\n']) {
                    Some((n, j + 1))
                } else {
                    None
                }
            },
        }
    } else {
        None
    }
}

/// Reads one task block.
pub open spec fn parse_task(s: Seq<char>, i: int) -> Option<(TaskView, int)> {
    if at_lit(s, i, lit_task_header()) {
        match parse_id_line(s, i + lit_task_header().len()) {
            None => None,
            Some((id, j)) => match parse_str_field(s, j, lit_description()) {
                None => None,
                Some((d, k)) => Some((TaskView { id: id, description: d }, k)),
            },
        }
    } else {
        None
    }
}

/// Reads task blocks as long as one starts at the cursor.
pub open spec fn parse_tasks(s: Seq<char>, i: int, acc: Seq<TaskView>) -> (Seq<TaskView>, int)
    decreases s.len() - i,
{
    match parse_task(s, i) {
        Some((t, j)) => {
            if i < j <= s.len() {
                parse_tasks(s, j, acc.push(t))
            } else {
                (acc, i)
            }
        },
        None => (acc, i),
    }
}

/// Reads one note block.
pub open spec fn parse_note(s: Seq<char>, i: int) -> Option<(NoteView, int)> {
    if at_lit(s, i, lit_note_header()) {
        match parse_id_line(s, i + lit_note_header().len()) {
            None => None,
            Some((id, j)) => match parse_str_field(s, j, lit_description()) {
                None => None,
                Some((d, k)) => match parse_str_field(s, k, lit_content()) {
                    None => None,
                    Some((c, m)) => Some((NoteView { id: id, description: d, content: c }, m)),
                },
            },
        }
    } else {
        None
    }
}

/// Reads note blocks as long as one starts at the cursor.
pub open spec fn parse_notes(s: Seq<char>, i: int, acc: Seq<NoteView>) -> (Seq<NoteView>, int)
    decreases s.len() - i,
{
    match parse_note(s, i) {
        Some((n, j)) => {
            if i < j <= s.len() {
                parse_notes(s, j, acc.push(n))
            } else {
                (acc, i)
            }
        },
        None => (acc, i),
    }
}

/// Reads one project block with its task and note blocks.
pub open spec fn parse_project(s: Seq<char>, i: int) -> Option<(ProjectView, int)> {
    if at_lit(s, i, lit_project_header()) {
        match parse_id_line(s, i + lit_project_header().len()) {
            None => None,
            Some((id, j)) => match parse_str_field(s, j, lit_name()) {
                None => None,
                Some((name, k)) => {
                    let (ts, m) = parse_tasks(s, k, Seq::empty());
                    let (ns, q) = parse_notes(s, m, Seq::empty());
                    Some((ProjectView { id: id, name: name, tasks: ts, notes: ns }, q))
                },
            },
        }
    } else {
        None
    }
}

/// Reads project blocks as long as one starts at the cursor.
pub open spec fn parse_projects(s: Seq<char>, i: int, acc: Seq<ProjectView>) -> (
    Seq<ProjectView>,
    int,
)
    decreases s.len() - i,
{
    match parse_project(s, i) {
        Some((p, j)) => {
            if i < j <= s.len() {
                parse_projects(s, j, acc.push(p))
            } else {
                (acc, i)
            }
        },
        None => (acc, i),
    }
}

/// Reads a whole document: the optional current-project line, then the
/// project blocks, which must cover the document exactly.
pub open spec fn spec_parse_state(s: Seq<char>) -> Option<StateView> {
    let header = if at_lit(s, 0, lit_current()) {
        match parse_quoted(s, lit_current().len() as int, Seq::empty()) {
            None => None,
            Some((t, j)) => {
                if at_lit(s, j, seq!['\n']) {
                    Some((Some(t), j + 1))
                } else {
                    None
                }
            },
        }
    } else {
        Some((None, 0int))
    };
    match header {
        None => None,
        Some((cur, i)) => {
            let (ps, j) = parse_projects(s, i, Seq::empty());
            if j == s.len() {
                Some(StateView { current_project: cur, projects: ps })
            } else {
                None
            }
        },
    }
}

// --- The decoder inverts the encoder --------------------------------------
/// A literal placed directly behind `pre` is found there.
pub proof fn lemma_at_lit_concat(pre: Seq<char>, lit: Seq<char>, rest: Seq<char>)
    ensures
        at_lit(pre + lit + rest, pre.len() as int, lit),
{
    let s = pre + lit + rest;
    assert(s.subrange(pre.len() as int, (pre.len() + lit.len()) as int) =~= lit);
}

/// Two literals that differ somewhere cannot both stand at one position.
pub proof fn lemma_at_lit_disagree(s: Seq<char>, i: int, a: Seq<char>, b: Seq<char>, k: int)
    requires
        0 <= k < a.len(),
        k < b.len(),
        a[k] != b[k],
        at_lit(s, i, a),
    ensures
        !at_lit(s, i, b),
{
    if at_lit(s, i, b) {
        assert(s.subrange(i, i + a.len())[k] == s[i + k]);
        assert(s.subrange(i, i + b.len())[k] == s[i + k]);
    }
}

/// Escaping distributes over concatenation.
pub proof fn lemma_escape_append(a: Seq<char>, b: Seq<char>)
    ensures
        escape(a + b) == escape(a) + escape(b),
    decreases a.len(),
{
    if a.len() == 0 {
        assert(a + b =~= b);
        assert(escape(a) + escape(b) =~= escape(b));
    } else {
        lemma_escape_append(a.drop_first(), b);
        assert((a + b).drop_first() =~= a.drop_first() + b);
        assert((a + b)[0] == a[0]);
        assert(esc_char(a[0]) + (escape(a.drop_first()) + escape(b)) =~= (esc_char(a[0]) + escape(
            a.drop_first(),
        )) + escape(b));
    }
}

/// Reading a quoted body that was written by `escape` yields it back and
/// stops right after the closing quote.
pub proof fn lemma_parse_quoted_escape(
    s: Seq<char>,
    pre: Seq<char>,
    t: Seq<char>,
    rest: Seq<char>,
    acc: Seq<char>,
)
    requires
        s == pre + escape(t) + seq!['"'] + rest,
    ensures
        parse_quoted(s, pre.len() as int, acc) == Some(
            (acc + t, (pre.len() + escape(t).len() + 1) as int),
        ),
    decreases t.len(),
{
    let i = pre.len() as int;
    if t.len() == 0 {
        assert(escape(t) =~= Seq::<char>::empty());
        assert(pre + escape(t) =~= pre);
        assert(s[i] == '"');
        assert(acc + t =~= acc);
    } else {
        let c = t[0];
        let t2 = t.drop_first();
        assert(escape(t) == esc_char(c) + escape(t2));
        let pre2 = pre + esc_char(c);
        assert(s =~= pre2 + escape(t2) + seq!['"'] + rest);
        lemma_parse_quoted_escape(s, pre2, t2, rest, acc.push(c));
        assert(acc.push(c) + t2 =~= acc + t);
        if c == '\\' || c == '"' {
            assert(esc_char(c).len() == 2);
            assert(s[i] == '\\');
            assert(s[i + 1] == esc_char(c)[1]);
            assert(unesc_char(esc_char(c)[1]) == Some(c));
            assert(i + 1 < s.len());
            assert(parse_quoted(s, i, acc) == parse_quoted(s, i + 2, acc.push(c)));
        } else {
            assert(esc_char(c) =~= seq![c]);
            assert(s[i] == c);
            assert(parse_quoted(s, i, acc) == parse_quoted(s, i + 1, acc.push(c)));
        }
    }
}

/// The value of digits read left to right onto an accumulator.
pub open spec fn val_acc(acc: nat, ds: Seq<char>) -> nat
    decreases ds.len(),
{
    if ds.len() == 0 {
        acc
    } else {
        val_acc(acc * 10 + digit_val(ds[0]), ds.drop_first())
    }
}

/// One more digit multiplies the value by ten and adds the digit.
pub proof fn lemma_val_acc_push(acc: nat, ds: Seq<char>, d: char)
    ensures
        val_acc(acc, ds.push(d)) == val_acc(acc, ds) * 10 + digit_val(d),
    decreases ds.len(),
{
    if ds.len() == 0 {
        assert(ds.push(d)[0] == d);
        assert(ds.push(d).drop_first() =~= Seq::<char>::empty());
        assert(val_acc(acc, ds.push(d)) == val_acc(acc * 10 + digit_val(d), ds.push(
            d,
        ).drop_first()));
        assert(val_acc(acc * 10 + digit_val(d), Seq::<char>::empty()) == acc * 10 + digit_val(d));
        assert(val_acc(acc, ds) == acc);
    } else {
        assert(ds.push(d)[0] == ds[0]);
        assert(ds.push(d).drop_first() =~= ds.drop_first().push(d));
        lemma_val_acc_push(acc * 10 + digit_val(ds[0]), ds.drop_first(), d);
        assert(val_acc(acc, ds.push(d)) == val_acc(acc * 10 + digit_val(ds[0]), ds.drop_first(
        ).push(d)));
        assert(val_acc(acc, ds) == val_acc(acc * 10 + digit_val(ds[0]), ds.drop_first()));
    }
}

/// Reading the decimal rendering of `n` onto an empty accumulator gives
/// `n` back.
pub proof fn lemma_val_acc_dec(n: nat)
    ensures
        val_acc(0, dec_digits(n)) == n,
    decreases n,
{
    crate::text::lemma_dec_digits_val(n);
    if n < 10 {
        assert(dec_digits(n) =~= seq![crate::text::digit_char(n)]);
        assert(dec_digits(n).drop_first() =~= Seq::<char>::empty());
        assert(val_acc(0, dec_digits(n)) == val_acc(
            0 * 10 + digit_val(dec_digits(n)[0]),
            dec_digits(n).drop_first(),
        ));
        assert(val_acc(digit_val(dec_digits(n)[0]), Seq::<char>::empty()) == digit_val(
            dec_digits(n)[0],
        ));
        assert(digit_val(dec_digits(n)[0]) == n);
    } else {
        lemma_val_acc_dec(n / 10);
        lemma_val_acc_push(0, dec_digits(n / 10), crate::text::digit_char(n % 10));
        assert(dec_digits(n) == dec_digits(n / 10).push(crate::text::digit_char(n % 10)));
        assert(digit_val(crate::text::digit_char(n % 10)) == n % 10);
        vstd::arithmetic::div_mod::lemma_fundamental_div_mod(n as int, 10);
    }
}


/// A run that already overflowed can only keep overflowing.
pub proof fn lemma_parse_num_rest_overflow(s: Seq<char>, i: int, acc: nat)
    requires
        acc > u32::MAX,
    ensures
        parse_num_rest(s, i, acc) is None,
    decreases s.len() - i,
{
    if 0 <= i < s.len() && is_digit(s[i]) {
        assert(acc * 10 + digit_val(s[i]) >= acc * 10);
        assert(acc * 10 >= acc * 1) by (nonlinear_arith)
            requires
                acc >= 0,
        ;
        lemma_parse_num_rest_overflow(s, i + 1, acc * 10 + digit_val(s[i]));
    }
}

/// Reading a digit run with accumulator semantics.
pub proof fn lemma_parse_num_rest_digits(s: Seq<char>, i: int, ds: Seq<char>, acc: nat)
    requires
        0 <= i,
        i + ds.len() <= s.len(),
        forall|k: int| 0 <= k < ds.len() ==> s[i + k] == ds[k],
        forall|k: int| 0 <= k < ds.len() ==> is_digit(#[trigger] ds[k]),
        i + ds.len() == s.len() || !is_digit(s[i + ds.len()]),
    ensures
        parse_num_rest(s, i, acc) == (if val_acc(acc, ds) <= u32::MAX {
            Some((val_acc(acc, ds) as u32, i + ds.len()))
        } else {
            None::<(u32, int)>
        }),
    decreases ds.len(),
{
    if ds.len() == 0 {
    } else {
        assert(s[i] == ds[0]);
        assert(is_digit(ds[0]));
        lemma_parse_num_rest_digits(s, i + 1, ds.drop_first(), acc * 10 + digit_val(ds[0]));
        assert(forall|k: int| 0 <= k < ds.drop_first().len() ==> s[i + 1 + k] == ds.drop_first()[k])
            by {
            assert(forall|k: int|
                0 <= k < ds.drop_first().len() ==> ds.drop_first()[k] == ds[k + 1]);
        }
    }
}

/// Reading the decimal rendering of a `u32` yields it back and stops at
/// the first character behind it, which must not be a digit.
pub proof fn lemma_parse_number_dec(s: Seq<char>, pre: Seq<char>, n: u32, rest: Seq<char>)
    requires
        s == pre + dec_digits(n as nat) + rest,
        rest.len() == 0 || !is_digit(rest[0]),
    ensures
        parse_number(s, pre.len() as int) == Some(
            (n, (pre.len() + dec_digits(n as nat).len()) as int),
        ),
{
    let i = pre.len() as int;
    let ds = dec_digits(n as nat);
    crate::text::lemma_dec_digits_val(n as nat);
    assert(forall|k: int| 0 <= k < ds.len() ==> s[i + k] == ds[k]);
    assert(i + ds.len() == s.len() || !is_digit(s[i + ds.len()]));
    lemma_parse_num_rest_digits(s, i, ds, 0);
    lemma_val_acc_dec(n as nat);
    assert(s[i] == ds[0]);
}

/// Reading a quoted field line that was written by `enc_str_field` yields
/// the body back and stops behind the line break.
#[verifier::rlimit(100)]
pub proof fn lemma_parse_str_field_enc(
    s: Seq<char>,
    pre: Seq<char>,
    key: Seq<char>,
    t: Seq<char>,
    rest: Seq<char>,
)
    requires
        s == pre + enc_str_field(key, t) + rest,
    ensures
        parse_str_field(s, pre.len() as int, key) == Some(
            (t, (pre.len() + enc_str_field(key, t).len()) as int),
        ),
{
    let i = pre.len() as int;
    assert(s =~= pre + key + (escape(t) + seq!['"'] + (seq!['\n'] + rest)));
    lemma_at_lit_concat(pre, key, escape(t) + seq!['"'] + (seq!['\n'] + rest));
    assert(at_lit(s, i, key));
    let pre2 = pre + key;
    assert(s =~= pre2 + escape(t) + seq!['"'] + (seq!['\n'] + rest));
    lemma_parse_quoted_escape(s, pre2, t, seq!['\n'] + rest, Seq::empty());
    assert(Seq::<char>::empty() + t =~= t);
    let j = pre2.len() + escape(t).len() + 1;
    let pre3 = pre2 + escape(t) + seq!['"'];
    assert(pre3.len() == j);
    assert(s =~= pre3 + seq!['\n'] + rest);
    lemma_at_lit_concat(pre3, seq!['\n'], rest);
    assert(at_lit(s, j as int, seq!['\n']));
    assert(enc_str_field(key, t).len() == key.len() + escape(t).len() + 2);
}

/// Reading an id line that was written by `enc_id_line` yields the id back
/// and stops behind the line break.
#[verifier::rlimit(100)]
pub proof fn lemma_parse_id_line_enc(s: Seq<char>, pre: Seq<char>, n: u32, rest: Seq<char>)
    requires
        s == pre + enc_id_line(n) + rest,
    ensures
        parse_id_line(s, pre.len() as int) == Some(
            (n, (pre.len() + enc_id_line(n).len()) as int),
        ),
{
    let i = pre.len() as int;
    let ds = dec_digits(n as nat);
    assert(s =~= pre + lit_id() + (ds + (seq!['\n'] + rest)));
    lemma_at_lit_concat(pre, lit_id(), ds + (seq!['\n'] + rest));
    assert(at_lit(s, i, lit_id()));
    let pre2 = pre + lit_id();
    assert(s =~= pre2 + ds + (seq!['\n'] + rest));
    lemma_parse_number_dec(s, pre2, n, seq!['\n'] + rest);
    assert((seq!['\n'] + rest)[0] == '\n');
    let j = pre2.len() + ds.len();
    let pre3 = pre2 + ds;
    assert(pre3.len() == j);
    assert(s =~= pre3 + seq!['\n'] + rest);
    lemma_at_lit_concat(pre3, seq!['\n'], rest);
    assert(at_lit(s, j as int, seq!['\n']));
    assert(enc_id_line(n).len() == lit_id().len() + ds.len() + 1);
}

/// Reading a task block that was written by `enc_task` yields the task
/// back and stops behind its last line.
#[verifier::rlimit(100)]
pub proof fn lemma_parse_task_enc(s: Seq<char>, pre: Seq<char>, t: TaskView, rest: Seq<char>)
    requires
        s == pre + enc_task(t) + rest,
    ensures
        parse_task(s, pre.len() as int) == Some((t, (pre.len() + enc_task(t).len()) as int)),
{
    let i = pre.len() as int;
    let idl = enc_id_line(t.id);
    let dsc = enc_str_field(lit_description(), t.description);
    assert(s =~= pre + lit_task_header() + (idl + (dsc + rest)));
    lemma_at_lit_concat(pre, lit_task_header(), idl + (dsc + rest));
    assert(at_lit(s, i, lit_task_header()));
    let pre2 = pre + lit_task_header();
    assert(s =~= pre2 + idl + (dsc + rest));
    lemma_parse_id_line_enc(s, pre2, t.id, dsc + rest);
    let pre3 = pre2 + idl;
    assert(s =~= pre3 + dsc + rest);
    lemma_parse_str_field_enc(s, pre3, lit_description(), t.description, rest);
    assert((TaskView { id: t.id, description: t.description }) == t);
}

/// Reading a note block that was written by `enc_note` yields the note
/// back and stops behind its last line.
#[verifier::rlimit(100)]
pub proof fn lemma_parse_note_enc(s: Seq<char>, pre: Seq<char>, n: NoteView, rest: Seq<char>)
    requires
        s == pre + enc_note(n) + rest,
    ensures
        parse_note(s, pre.len() as int) == Some((n, (pre.len() + enc_note(n).len()) as int)),
{
    let i = pre.len() as int;
    let idl = enc_id_line(n.id);
    let dsc = enc_str_field(lit_description(), n.description);
    let cnt = enc_str_field(lit_content(), n.content);
    assert(s =~= pre + lit_note_header() + (idl + (dsc + (cnt + rest))));
    lemma_at_lit_concat(pre, lit_note_header(), idl + (dsc + (cnt + rest)));
    assert(at_lit(s, i, lit_note_header()));
    let pre2 = pre + lit_note_header();
    assert(s =~= pre2 + idl + (dsc + (cnt + rest)));
    lemma_parse_id_line_enc(s, pre2, n.id, dsc + (cnt + rest));
    let pre3 = pre2 + idl;
    assert(s =~= pre3 + dsc + (cnt + rest));
    lemma_parse_str_field_enc(s, pre3, lit_description(), n.description, cnt + rest);
    let pre4 = pre3 + dsc;
    assert(s =~= pre4 + cnt + rest);
    lemma_parse_str_field_enc(s, pre4, lit_content(), n.content, rest);
    assert((NoteView { id: n.id, description: n.description, content: n.content }) == n);
}

/// Concatenation is associative.
pub proof fn lemma_seq_assoc(a: Seq<char>, b: Seq<char>, c: Seq<char>)
    ensures
        (a + b) + c == a + (b + c),
{
    assert((a + b) + c =~= a + (b + c));
}

/// Regrouping a middle pair inside a concatenation.
pub proof fn lemma_assoc_mid(pre: Seq<char>, x: Seq<char>, y: Seq<char>, rest: Seq<char>)
    ensures
        pre + (x + y) + rest == pre + x + (y + rest),
{
    lemma_seq_assoc(pre, x, y);
    lemma_seq_assoc(pre + x, y, rest);
}

/// Reading the task blocks written by `enc_tasks` yields them all and
/// stops where no further task header stands.
#[verifier::rlimit(100)]
pub proof fn lemma_parse_tasks_enc(
    s: Seq<char>,
    pre: Seq<char>,
    ts: Seq<TaskView>,
    rest: Seq<char>,
    acc: Seq<TaskView>,
)
    requires
        s == pre + enc_tasks(ts) + rest,
        !at_lit(s, (pre.len() + enc_tasks(ts).len()) as int, lit_task_header()),
    ensures
        parse_tasks(s, pre.len() as int, acc) == (
            acc + ts,
            (pre.len() + enc_tasks(ts).len()) as int,
        ),
    decreases ts.len(),
{
    let i = pre.len() as int;
    if ts.len() == 0 {
        assert(enc_tasks(ts) =~= Seq::<char>::empty());
        assert(!at_lit(s, i, lit_task_header()));
        assert(parse_task(s, i) is None);
        assert(acc + ts =~= acc);
    } else {
        let t0 = ts[0];
        let ts2 = ts.drop_first();
        assert(enc_tasks(ts) == enc_task(t0) + enc_tasks(ts2));
        lemma_assoc_mid(pre, enc_task(t0), enc_tasks(ts2), rest);
        assert(s == pre + enc_task(t0) + (enc_tasks(ts2) + rest));
        lemma_parse_task_enc(s, pre, t0, enc_tasks(ts2) + rest);
        let pre2 = pre + enc_task(t0);
        assert(enc_task(t0).len() > 0);
        lemma_seq_assoc(pre2, enc_tasks(ts2), rest);
        assert(s == pre2 + enc_tasks(ts2) + rest);
        assert((pre2.len() + enc_tasks(ts2).len()) as int == (pre.len() + enc_tasks(
            ts,
        ).len()) as int);
        lemma_parse_tasks_enc(s, pre2, ts2, rest, acc.push(t0));
        assert(acc.push(t0) + ts2 =~= acc + ts);
    }
}

/// Reading the note blocks written by `enc_notes` yields them all and
/// stops where no further note header stands.
#[verifier::rlimit(100)]
pub proof fn lemma_parse_notes_enc(
    s: Seq<char>,
    pre: Seq<char>,
    ns: Seq<NoteView>,
    rest: Seq<char>,
    acc: Seq<NoteView>,
)
    requires
        s == pre + enc_notes(ns) + rest,
        !at_lit(s, (pre.len() + enc_notes(ns).len()) as int, lit_note_header()),
    ensures
        parse_notes(s, pre.len() as int, acc) == (
            acc + ns,
            (pre.len() + enc_notes(ns).len()) as int,
        ),
    decreases ns.len(),
{
    let i = pre.len() as int;
    if ns.len() == 0 {
        assert(enc_notes(ns) =~= Seq::<char>::empty());
        assert(!at_lit(s, i, lit_note_header()));
        assert(parse_note(s, i) is None);
        assert(acc + ns =~= acc);
    } else {
        let n0 = ns[0];
        let ns2 = ns.drop_first();
        assert(enc_notes(ns) == enc_note(n0) + enc_notes(ns2));
        lemma_assoc_mid(pre, enc_note(n0), enc_notes(ns2), rest);
        assert(s == pre + enc_note(n0) + (enc_notes(ns2) + rest));
        lemma_parse_note_enc(s, pre, n0, enc_notes(ns2) + rest);
        let pre2 = pre + enc_note(n0);
        assert(enc_note(n0).len() > 0);
        lemma_seq_assoc(pre2, enc_notes(ns2), rest);
        assert(s == pre2 + enc_notes(ns2) + rest);
        assert((pre2.len() + enc_notes(ns2).len()) as int == (pre.len() + enc_notes(
            ns,
        ).len()) as int);
        lemma_parse_notes_enc(s, pre2, ns2, rest, acc.push(n0));
        assert(acc.push(n0) + ns2 =~= acc + ns);
    }
}

/// A task header rules out a note header at the same position, and the
/// other way round; a project header rules out both.
pub proof fn lemma_headers_distinct(s: Seq<char>, i: int)
    ensures
        at_lit(s, i, lit_note_header()) ==> !at_lit(s, i, lit_task_header()),
        at_lit(s, i, lit_project_header()) ==> !at_lit(s, i, lit_task_header()) && !at_lit(
            s,
            i,
            lit_note_header(),
        ),
{
    if at_lit(s, i, lit_note_header()) {
        lemma_at_lit_disagree(s, i, lit_note_header(), lit_task_header(), 11);
    }
    if at_lit(s, i, lit_project_header()) {
        lemma_at_lit_disagree(s, i, lit_project_header(), lit_task_header(), 10);
        lemma_at_lit_disagree(s, i, lit_project_header(), lit_note_header(), 10);
    }
}

/// A note block placed directly behind `pre` starts with its header.
pub proof fn lemma_note_block_header(pre: Seq<char>, n: NoteView, rest: Seq<char>)
    ensures
        at_lit(pre + enc_note(n) + rest, pre.len() as int, lit_note_header()),
{
    let tail = enc_id_line(n.id) + (enc_str_field(lit_description(), n.description) + (
    enc_str_field(lit_content(), n.content) + rest));
    assert(pre + enc_note(n) + rest =~= pre + lit_note_header() + tail);
    lemma_at_lit_concat(pre, lit_note_header(), tail);
}

/// A run of note blocks placed directly behind `pre` starts with a note
/// header.
pub proof fn lemma_notes_block_header(pre: Seq<char>, ns: Seq<NoteView>, rest: Seq<char>)
    requires
        ns.len() > 0,
    ensures
        at_lit(pre + enc_notes(ns) + rest, pre.len() as int, lit_note_header()),
{
    assert(enc_notes(ns) == enc_note(ns[0]) + enc_notes(ns.drop_first()));
    assert(pre + enc_notes(ns) + rest =~= pre + enc_note(ns[0]) + (enc_notes(ns.drop_first())
        + rest));
    lemma_note_block_header(pre, ns[0], enc_notes(ns.drop_first()) + rest);
}

/// A project block placed directly behind `pre` starts with its header.
pub proof fn lemma_project_block_header(pre: Seq<char>, p: ProjectView, rest: Seq<char>)
    ensures
        at_lit(pre + enc_project(p) + rest, pre.len() as int, lit_project_header()),
{
    let tail = enc_id_line(p.id) + (enc_str_field(lit_name(), p.name) + (enc_tasks(p.tasks) + (
    enc_notes(p.notes) + rest)));
    assert(pre + enc_project(p) + rest =~= pre + lit_project_header() + tail);
    lemma_at_lit_concat(pre, lit_project_header(), tail);
}

/// A run of project blocks placed directly behind `pre` starts with a
/// project header.
pub proof fn lemma_projects_block_header(pre: Seq<char>, ps: Seq<ProjectView>, rest: Seq<char>)
    requires
        ps.len() > 0,
    ensures
        at_lit(pre + enc_projects(ps) + rest, pre.len() as int, lit_project_header()),
{
    assert(enc_projects(ps) == enc_project(ps[0]) + enc_projects(ps.drop_first()));
    assert(pre + enc_projects(ps) + rest =~= pre + enc_project(ps[0]) + (enc_projects(
        ps.drop_first(),
    ) + rest));
    lemma_project_block_header(pre, ps[0], enc_projects(ps.drop_first()) + rest);
}

/// Regrouping a five-part block behind a prefix, step by step.
pub proof fn lemma_split5(
    pre: Seq<char>,
    a: Seq<char>,
    b: Seq<char>,
    c: Seq<char>,
    d: Seq<char>,
    e: Seq<char>,
    rest: Seq<char>,
)
    ensures
        pre + (a + b + c + d + e) + rest == pre + a + (b + (c + (d + (e + rest)))),
        pre + (a + b + c + d + e) + rest == (pre + a) + b + (c + (d + (e + rest))),
        pre + (a + b + c + d + e) + rest == ((pre + a) + b) + c + (d + (e + rest)),
        pre + (a + b + c + d + e) + rest == (((pre + a) + b) + c) + d + (e + rest),
        pre + (a + b + c + d + e) + rest == ((((pre + a) + b) + c) + d) + e + rest,
{
    assert(pre + (a + b + c + d + e) + rest =~= pre + a + (b + (c + (d + (e + rest)))));
    assert(pre + (a + b + c + d + e) + rest =~= (pre + a) + b + (c + (d + (e + rest))));
    assert(pre + (a + b + c + d + e) + rest =~= ((pre + a) + b) + c + (d + (e + rest)));
    assert(pre + (a + b + c + d + e) + rest =~= (((pre + a) + b) + c) + d + (e + rest));
    assert(pre + (a + b + c + d + e) + rest =~= ((((pre + a) + b) + c) + d) + e + rest);
}

/// Reading a project block that was written by `enc_project` yields the
/// project back, provided no stray task or note header follows it.
#[verifier::rlimit(100)]
pub proof fn lemma_parse_project_enc(s: Seq<char>, pre: Seq<char>, p: ProjectView, rest: Seq<char>)
    requires
        s == pre + enc_project(p) + rest,
        !at_lit(s, (pre.len() + enc_project(p).len()) as int, lit_task_header()),
        !at_lit(s, (pre.len() + enc_project(p).len()) as int, lit_note_header()),
    ensures
        parse_project(s, pre.len() as int) == Some(
            (p, (pre.len() + enc_project(p).len()) as int),
        ),
{
    let i = pre.len() as int;
    let hdr = lit_project_header();
    let idl = enc_id_line(p.id);
    let nm = enc_str_field(lit_name(), p.name);
    let tsk = enc_tasks(p.tasks);
    let nts = enc_notes(p.notes);
    lemma_split5(pre, hdr, idl, nm, tsk, nts, rest);
    assert(s == pre + hdr + (idl + (nm + (tsk + (nts + rest)))));
    lemma_at_lit_concat(pre, hdr, idl + (nm + (tsk + (nts + rest))));
    assert(at_lit(s, i, hdr));
    let pre2 = pre + hdr;
    assert(s == pre2 + idl + (nm + (tsk + (nts + rest))));
    lemma_parse_id_line_enc(s, pre2, p.id, nm + (tsk + (nts + rest)));
    let pre3 = pre2 + idl;
    assert(s == pre3 + nm + (tsk + (nts + rest)));
    lemma_parse_str_field_enc(s, pre3, lit_name(), p.name, tsk + (nts + rest));
    let pre4 = pre3 + nm;
    let end_tasks = (pre4.len() + tsk.len()) as int;
    assert(s == pre4 + tsk + (nts + rest));
    let pre5 = pre4 + tsk;
    assert(s == pre5 + nts + rest);
    if p.notes.len() > 0 {
        lemma_notes_block_header(pre5, p.notes, rest);
        assert(at_lit(s, end_tasks, lit_note_header()));
        lemma_headers_distinct(s, end_tasks);
    } else {
        assert(nts =~= Seq::<char>::empty());
        assert(end_tasks == (pre.len() + enc_project(p).len()) as int);
    }
    assert(!at_lit(s, end_tasks, lit_task_header()));
    lemma_parse_tasks_enc(s, pre4, p.tasks, nts + rest, Seq::empty());
    assert(Seq::<TaskView>::empty() + p.tasks =~= p.tasks);
    assert(pre5.len() == end_tasks);
    let end_notes = (pre5.len() + nts.len()) as int;
    assert(end_notes == (pre.len() + enc_project(p).len()) as int);
    lemma_parse_notes_enc(s, pre5, p.notes, rest, Seq::empty());
    assert(Seq::<NoteView>::empty() + p.notes =~= p.notes);
    assert((ProjectView { id: p.id, name: p.name, tasks: p.tasks, notes: p.notes }) == p);
}

/// Reading the project blocks written by `enc_projects` yields them all,
/// provided no stray header stands at the very end.
#[verifier::rlimit(100)]
pub proof fn lemma_parse_projects_enc(
    s: Seq<char>,
    pre: Seq<char>,
    ps: Seq<ProjectView>,
    rest: Seq<char>,
    acc: Seq<ProjectView>,
)
    requires
        s == pre + enc_projects(ps) + rest,
        !at_lit(s, (pre.len() + enc_projects(ps).len()) as int, lit_project_header()),
        !at_lit(s, (pre.len() + enc_projects(ps).len()) as int, lit_task_header()),
        !at_lit(s, (pre.len() + enc_projects(ps).len()) as int, lit_note_header()),
    ensures
        parse_projects(s, pre.len() as int, acc) == (
            acc + ps,
            (pre.len() + enc_projects(ps).len()) as int,
        ),
    decreases ps.len(),
{
    let i = pre.len() as int;
    let end = (pre.len() + enc_projects(ps).len()) as int;
    if ps.len() == 0 {
        assert(enc_projects(ps) =~= Seq::<char>::empty());
        assert(!at_lit(s, i, lit_project_header()));
        assert(parse_project(s, i) is None);
        assert(acc + ps =~= acc);
    } else {
        let p0 = ps[0];
        let ps2 = ps.drop_first();
        assert(enc_projects(ps) == enc_project(p0) + enc_projects(ps2));
        lemma_assoc_mid(pre, enc_project(p0), enc_projects(ps2), rest);
        assert(s == pre + enc_project(p0) + (enc_projects(ps2) + rest));
        let end0 = (pre.len() + enc_project(p0).len()) as int;
        let pre2 = pre + enc_project(p0);
        lemma_seq_assoc(pre2, enc_projects(ps2), rest);
        assert(s == pre2 + enc_projects(ps2) + rest);
        if ps2.len() > 0 {
            lemma_projects_block_header(pre2, ps2, rest);
            assert(at_lit(s, end0, lit_project_header()));
            lemma_headers_distinct(s, end0);
        } else {
            assert(enc_projects(ps2) =~= Seq::<char>::empty());
            assert(end0 == end);
        }
        lemma_parse_project_enc(s, pre, p0, enc_projects(ps2) + rest);
        assert(enc_project(p0).len() > 0);
        assert((pre2.len() + enc_projects(ps2).len()) as int == end);
        lemma_parse_projects_enc(s, pre2, ps2, rest, acc.push(p0));
        assert(acc.push(p0) + ps2 =~= acc + ps);
    }
}

/// Round-trip law: decoding an encoded state yields exactly that state,
/// whatever names, descriptions and bodies it holds.
#[verifier::rlimit(100)]
pub proof fn lemma_state_round_trip(v: StateView)
    ensures
        spec_parse_state(spec_encode_state(v)) == Some(v),
{
    let s = spec_encode_state(v);
    let pjs = enc_projects(v.projects);
    match v.current_project {
        Some(n) => {
            let hdr = lit_current() + escape(n) + seq!['"'] + seq!['\n'];
            assert(s == hdr + pjs);
            assert(s =~= Seq::<char>::empty() + lit_current() + (escape(n) + seq!['"'] + (
            seq!['\n'] + pjs)));
            lemma_at_lit_concat(
                Seq::<char>::empty(),
                lit_current(),
                escape(n) + seq!['"'] + (seq!['\n'] + pjs),
            );
            assert(at_lit(s, 0, lit_current()));
            let pre2 = Seq::<char>::empty() + lit_current();
            assert(s =~= pre2 + escape(n) + seq!['"'] + (seq!['\n'] + pjs));
            lemma_parse_quoted_escape(s, pre2, n, seq!['\n'] + pjs, Seq::empty());
            assert(Seq::<char>::empty() + n =~= n);
            let j = (pre2.len() + escape(n).len() + 1) as int;
            let pre3 = pre2 + escape(n) + seq!['"'];
            assert(pre3.len() == j);
            assert(s =~= pre3 + seq!['\n'] + pjs);
            lemma_at_lit_concat(pre3, seq!['\n'], pjs);
            assert(at_lit(s, j, seq!['\n']));
            let i0 = j + 1;
            let pre4 = pre3 + seq!['\n'];
            assert(pre4.len() == i0);
            assert(s =~= pre4 + pjs + Seq::<char>::empty());
            assert((pre4.len() + pjs.len()) as int == s.len());
            lemma_parse_projects_enc(s, pre4, v.projects, Seq::empty(), Seq::empty());
            assert(Seq::<ProjectView>::empty() + v.projects =~= v.projects);
            assert((StateView { current_project: v.current_project, projects: v.projects }) == v);
        },
        None => {
            assert(s =~= pjs);
            assert(s =~= Seq::<char>::empty() + pjs + Seq::<char>::empty());
            if v.projects.len() > 0 {
                lemma_projects_block_header(
                    Seq::<char>::empty(),
                    v.projects,
                    Seq::<char>::empty(),
                );
                assert(at_lit(s, 0, lit_project_header()));
                lemma_at_lit_disagree(s, 0, lit_project_header(), lit_current(), 0);
                assert(!at_lit(s, 0, lit_current()));
            } else {
                assert(s.len() == 0);
                assert(!at_lit(s, 0, lit_current()));
            }
            lemma_parse_projects_enc(
                s,
                Seq::<char>::empty(),
                v.projects,
                Seq::empty(),
                Seq::empty(),
            );
            assert(Seq::<ProjectView>::empty() + v.projects =~= v.projects);
            assert((StateView { current_project: v.current_project, projects: v.projects }) == v);
        },
    }
}

// --- Executable encoding ---------------------------------------------------
/// Appending one character extends the encoded task run by one block.
pub proof fn lemma_enc_tasks_push(ts: Seq<TaskView>, t: TaskView)
    ensures
        enc_tasks(ts.push(t)) == enc_tasks(ts) + enc_task(t),
    decreases ts.len(),
{
    if ts.len() == 0 {
        assert(ts.push(t)[0] == t);
        assert(ts.push(t).drop_first() =~= Seq::<TaskView>::empty());
        assert(enc_tasks(ts.push(t)) == enc_task(t) + enc_tasks(Seq::<TaskView>::empty()));
        assert(enc_task(t) + Seq::<char>::empty() =~= enc_task(t));
        assert(Seq::<char>::empty() + enc_task(t) =~= enc_task(t));
    } else {
        assert(ts.push(t)[0] == ts[0]);
        assert(ts.push(t).drop_first() =~= ts.drop_first().push(t));
        lemma_enc_tasks_push(ts.drop_first(), t);
        assert(enc_tasks(ts.push(t)) == enc_task(ts[0]) + enc_tasks(ts.drop_first().push(t)));
        lemma_seq_assoc(enc_task(ts[0]), enc_tasks(ts.drop_first()), enc_task(t));
    }
}

/// Appending one note extends the encoded note run by one block.
pub proof fn lemma_enc_notes_push(ns: Seq<NoteView>, n: NoteView)
    ensures
        enc_notes(ns.push(n)) == enc_notes(ns) + enc_note(n),
    decreases ns.len(),
{
    if ns.len() == 0 {
        assert(ns.push(n)[0] == n);
        assert(ns.push(n).drop_first() =~= Seq::<NoteView>::empty());
        assert(enc_notes(ns.push(n)) == enc_note(n) + enc_notes(Seq::<NoteView>::empty()));
        assert(enc_note(n) + Seq::<char>::empty() =~= enc_note(n));
        assert(Seq::<char>::empty() + enc_note(n) =~= enc_note(n));
    } else {
        assert(ns.push(n)[0] == ns[0]);
        assert(ns.push(n).drop_first() =~= ns.drop_first().push(n));
        lemma_enc_notes_push(ns.drop_first(), n);
        assert(enc_notes(ns.push(n)) == enc_note(ns[0]) + enc_notes(ns.drop_first().push(n)));
        lemma_seq_assoc(enc_note(ns[0]), enc_notes(ns.drop_first()), enc_note(n));
    }
}

/// Appending one project extends the encoded project run by one block.
pub proof fn lemma_enc_projects_push(ps: Seq<ProjectView>, p: ProjectView)
    ensures
        enc_projects(ps.push(p)) == enc_projects(ps) + enc_project(p),
    decreases ps.len(),
{
    if ps.len() == 0 {
        assert(ps.push(p)[0] == p);
        assert(ps.push(p).drop_first() =~= Seq::<ProjectView>::empty());
        assert(enc_projects(ps.push(p)) == enc_project(p) + enc_projects(
            Seq::<ProjectView>::empty(),
        ));
        assert(enc_project(p) + Seq::<char>::empty() =~= enc_project(p));
        assert(Seq::<char>::empty() + enc_project(p) =~= enc_project(p));
    } else {
        assert(ps.push(p)[0] == ps[0]);
        assert(ps.push(p).drop_first() =~= ps.drop_first().push(p));
        lemma_enc_projects_push(ps.drop_first(), p);
        assert(enc_projects(ps.push(p)) == enc_project(ps[0]) + enc_projects(ps.drop_first().push(
            p,
        )));
        lemma_seq_assoc(enc_project(ps[0]), enc_projects(ps.drop_first()), enc_project(p));
    }
}

/// Appends the escaped form of `t` to `out`.
fn append_escaped(out: &mut String, t: &str)
    ensures
        final(out)@ == old(out)@ + escape(t@),
{
    let len = t.unicode_len();
    let mut k: usize = 0;
    while k < len
        invariant
            k <= len,
            len == t@.len(),
            out@ == old(out)@ + escape(t@.subrange(0, k as int)),
        decreases len - k,
    {
        let ghost out0 = out@;
        let c = t.get_char(k);
        if c == '\\' {
            out.append("\\\\");
            proof {
                reveal_strlit("\\\\");
                assert("\\\\"@ =~= seq!['\\', '\\']);
                assert(out@ == out0 + esc_char(c));
            }
        } else if c == '"' {
            out.append("\\\"");
            proof {
                reveal_strlit("\\\"");
                assert("\\\""@ =~= seq!['\\', '"']);
                assert(out@ == out0 + esc_char(c));
            }
        } else {
            let piece = t.substring_char(k, k + 1);
            proof {
                assert(piece@ =~= seq![c]);
                assert(esc_char(c) =~= seq![c]);
            }
            out.append(piece);
            proof {
                assert(out@ == out0 + esc_char(c));
            }
        }
        proof {
            let pfx = t@.subrange(0, k as int);
            assert(t@.subrange(0, k + 1) =~= pfx.push(c));
            assert(pfx.push(c) =~= pfx + seq![c]);
            lemma_escape_append(pfx, seq![c]);
            assert(seq![c].drop_first() =~= Seq::<char>::empty());
            assert(escape(seq![c]) == esc_char(c) + escape(Seq::<char>::empty()));
            assert(esc_char(c) + Seq::<char>::empty() =~= esc_char(c));
            lemma_seq_assoc(old(out)@, escape(pfx), esc_char(c));
        }
        k += 1;
    }
    proof {
        assert(t@.subrange(0, len as int) =~= t@);
    }
}

/// Appends a `key "body"` line to `out`.
fn append_str_field(out: &mut String, key: &str, body: &str)
    ensures
        final(out)@ == old(out)@ + enc_str_field(key@, body@),
{
    out.append(key);
    append_escaped(out, body);
    out.append("\"\n");
    proof {
        reveal_strlit("\"\n");
        assert("\"\n"@ =~= seq!['"'] + seq!['\n']);
        assert(old(out)@ + key@ + escape(body@) + (seq!['"'] + seq!['\n']) =~= old(out)@ + (key@
            + escape(body@) + seq!['"'] + seq!['\n']));
    }
}

/// Appends an `id = N` line to `out`.
fn append_id_line(out: &mut String, id: u32)
    ensures
        final(out)@ == old(out)@ + enc_id_line(id),
{
    out.append("id = ");
    let digits = u32_dec(id);
    out.append(digits.as_str());
    out.append("\n");
    proof {
        reveal_strlit("id = ");
        reveal_strlit("\n");
        assert("id = "@ =~= lit_id());
        assert("\n"@ =~= seq!['\n']);
        assert(old(out)@ + lit_id() + dec_digits(id as nat) + seq!['\n'] =~= old(out)@ + (lit_id()
            + dec_digits(id as nat) + seq!['\n']));
    }
}

/// Renders the whole state as its persistent document.
#[verifier::rlimit(100)]
pub fn encode_state(state: &TedoState) -> (r: String)
    ensures
        r@ == spec_encode_state(state@),
{
    let ghost hdr = match state@.current_project {
        Some(n) => lit_current() + escape(n) + seq!['"'] + seq!['\n'],
        None => Seq::<char>::empty(),
    };
    let mut out = String::new();
    match &state.current_project {
        Some(n) => {
            out.append("current_project = \"");
            append_escaped(&mut out, n.as_str());
            out.append("\"\n");
            proof {
                reveal_strlit("current_project = \"");
                reveal_strlit("\"\n");
                assert("current_project = \""@ =~= lit_current());
                assert("\"\n"@ =~= seq!['"'] + seq!['\n']);
                assert(lit_current() + escape(n@) + (seq!['"'] + seq!['\n']) =~= hdr);
                assert(out@ =~= hdr);
            }
        },
        None => {
            proof {
                assert(out@ =~= hdr);
            }
        },
    }
    let mut i: usize = 0;
    while i < state.projects.len()
        invariant
            i <= state.projects@.len(),
            hdr == (match state@.current_project {
                Some(n) => lit_current() + escape(n) + seq!['"'] + seq!['\n'],
                None => Seq::<char>::empty(),
            }),
            out@ == hdr + enc_projects(state@.projects.subrange(0, i as int)),
        decreases state.projects@.len() - i,
    {
        let ghost out0 = out@;
        let ghost pfx = state@.projects.subrange(0, i as int);
        let p = &state.projects[i];
        proof {
            assert(p@ == state@.projects[i as int]);
        }
        out.append("[[projects]]\n");
        proof {
            reveal_strlit("[[projects]]\n");
            assert("[[projects]]\n"@ =~= lit_project_header());
        }
        append_id_line(&mut out, p.id);
        append_str_field(&mut out, "name = \"", p.name.as_str());
        proof {
            reveal_strlit("name = \"");
            assert("name = \""@ =~= lit_name());
        }
        let mut k: usize = 0;
        let ghost base = out@;
        while k < p.tasks.len()
            invariant
                k <= p.tasks@.len(),
                base == out0 + lit_project_header() + enc_id_line(p@.id) + enc_str_field(
                    lit_name(),
                    p@.name,
                ),
                p == state.projects@[i as int],
                0 <= i < state.projects@.len(),
                out@ == base + enc_tasks(p@.tasks.subrange(0, k as int)),
            decreases p.tasks@.len() - k,
        {
            let ghost outk = out@;
            let t = &p.tasks[k];
            proof {
                assert(t@ == p@.tasks[k as int]);
            }
            out.append("[[projects.tasks]]\n");
            proof {
                reveal_strlit("[[projects.tasks]]\n");
                assert("[[projects.tasks]]\n"@ =~= lit_task_header());
            }
            append_id_line(&mut out, t.id);
            append_str_field(&mut out, "description = \"", t.description.as_str());
            proof {
                reveal_strlit("description = \"");
                assert("description = \""@ =~= lit_description());
                let tpfx = p@.tasks.subrange(0, k as int);
                assert(p@.tasks.subrange(0, k + 1) =~= tpfx.push(t@));
                lemma_enc_tasks_push(tpfx, t@);
                assert(outk + lit_task_header() + enc_id_line(t@.id) + enc_str_field(
                    lit_description(),
                    t@.description,
                ) =~= outk + enc_task(t@));
                lemma_seq_assoc(base, enc_tasks(tpfx), enc_task(t@));
            }
            k += 1;
        }
        proof {
            assert(p@.tasks.subrange(0, p.tasks@.len() as int) =~= p@.tasks);
        }
        let mut m: usize = 0;
        let ghost base2 = out@;
        while m < p.notes.len()
            invariant
                m <= p.notes@.len(),
                base2 == out0 + lit_project_header() + enc_id_line(p@.id) + enc_str_field(
                    lit_name(),
                    p@.name,
                ) + enc_tasks(p@.tasks),
                p == state.projects@[i as int],
                0 <= i < state.projects@.len(),
                out@ == base2 + enc_notes(p@.notes.subrange(0, m as int)),
            decreases p.notes@.len() - m,
        {
            let ghost outm = out@;
            let n = &p.notes[m];
            proof {
                assert(n@ == p@.notes[m as int]);
            }
            out.append("[[projects.notes]]\n");
            proof {
                reveal_strlit("[[projects.notes]]\n");
                assert("[[projects.notes]]\n"@ =~= lit_note_header());
            }
            append_id_line(&mut out, n.id);
            append_str_field(&mut out, "description = \"", n.description.as_str());
            append_str_field(&mut out, "content = \"", n.content.as_str());
            proof {
                reveal_strlit("description = \"");
                reveal_strlit("content = \"");
                assert("description = \""@ =~= lit_description());
                assert("content = \""@ =~= lit_content());
                let npfx = p@.notes.subrange(0, m as int);
                assert(p@.notes.subrange(0, m + 1) =~= npfx.push(n@));
                lemma_enc_notes_push(npfx, n@);
                assert(outm + lit_note_header() + enc_id_line(n@.id) + enc_str_field(
                    lit_description(),
                    n@.description,
                ) + enc_str_field(lit_content(), n@.content) =~= outm + enc_note(n@));
                lemma_seq_assoc(base2, enc_notes(npfx), enc_note(n@));
            }
            m += 1;
        }
        proof {
            assert(p@.notes.subrange(0, p.notes@.len() as int) =~= p@.notes);
            assert(state@.projects.subrange(0, i + 1) =~= pfx.push(p@));
            lemma_enc_projects_push(pfx, p@);
            assert(out0 + lit_project_header() + enc_id_line(p@.id) + enc_str_field(
                lit_name(),
                p@.name,
            ) + enc_tasks(p@.tasks) + enc_notes(p@.notes) =~= out0 + enc_project(p@));
            lemma_seq_assoc(hdr, enc_projects(pfx), enc_project(p@));
        }
        i += 1;
    }
    proof {
        assert(state@.projects.subrange(0, state.projects@.len() as int) =~= state@.projects);
    }
    out
}

// --- Executable decoding ---------------------------------------------------
/// Whether `lit` stands at position `i`; on success the cursor lands
/// directly behind it.
fn try_lit(s: &str, i: usize, lit: &str) -> (r: Option<usize>)
    ensures
        match r {
            Some(j) => at_lit(s@, i as int, lit@) && j == i + lit@.len() && j <= s@.len(),
            None => !at_lit(s@, i as int, lit@),
        },
{
    let sl = s.unicode_len();
    let ll = lit.unicode_len();
    if i > sl || ll > sl - i {
        return None;
    }
    let mut k: usize = 0;
    while k < ll
        invariant
            k <= ll,
            sl == s@.len(),
            ll == lit@.len(),
            i + ll <= sl,
            forall|m: int| 0 <= m < k ==> s@[i + m] == lit@[m],
        decreases ll - k,
    {
        if s.get_char(i + k) != lit.get_char(k) {
            proof {
                assert(s@.subrange(i as int, i + lit@.len())[k as int] != lit@[k as int]);
            }
            return None;
        }
        k += 1;
    }
    proof {
        assert(s@.subrange(i as int, i + lit@.len()) =~= lit@);
    }
    Some(i + ll)
}

/// Reads a quoted string body starting at `i`, as `parse_quoted` does.
fn parse_quoted_str(s: &str, i: usize) -> (r: Option<(String, usize)>)
    ensures
        match r {
            Some(t) => parse_quoted(s@, i as int, Seq::empty()) == Some((t.0@, t.1 as int)) && i
                < t.1 <= s@.len(),
            None => parse_quoted(s@, i as int, Seq::empty()) is None,
        },
{
    let sl = s.unicode_len();
    let mut acc = String::new();
    let mut k: usize = i;
    while k < sl
        invariant
            i <= k,
            sl == s@.len(),
            parse_quoted(s@, i as int, Seq::empty()) == parse_quoted(s@, k as int, acc@),
        decreases sl - k,
    {
        let ghost acck = acc@;
        let c = s.get_char(k);
        if c == '"' {
            proof {
                assert(parse_quoted(s@, k as int, acc@) == Some((acc@, k + 1)));
            }
            return Some((acc, k + 1));
        } else if c == '\\' {
            if k + 1 >= sl {
                proof {
                    assert(parse_quoted(s@, k as int, acc@) is None);
                }
                return None;
            }
            let e = s.get_char(k + 1);
            if e == '\\' {
                acc.append("\\");
                proof {
                    reveal_strlit("\\");
                    assert("\\"@ =~= seq!['\\']);
                    assert(acc@ =~= acck.push('\\'));
                    assert(unesc_char(e) == Some('\\'));
                    assert(parse_quoted(s@, k as int, acck) == parse_quoted(
                        s@,
                        k + 2,
                        acck.push('\\'),
                    ));
                }
            } else if e == '"' {
                acc.append("\"");
                proof {
                    reveal_strlit("\"");
                    assert("\""@ =~= seq!['"']);
                    assert(acc@ =~= acck.push('"'));
                    assert(unesc_char(e) == Some('"'));
                    assert(parse_quoted(s@, k as int, acck) == parse_quoted(
                        s@,
                        k + 2,
                        acck.push('"'),
                    ));
                }
            } else {
                proof {
                    assert(unesc_char(e) is None);
                    assert(parse_quoted(s@, k as int, acc@) is None);
                }
                return None;
            }
            k += 2;
        } else {
            let piece = s.substring_char(k, k + 1);
            proof {
                assert(piece@ =~= seq![c]);
                assert(acck + seq![c] =~= acck.push(c));
            }
            acc.append(piece);
            proof {
                assert(acc@ == acck.push(c));
                assert(parse_quoted(s@, k as int, acck) == parse_quoted(s@, k + 1, acck.push(c)));
            }
            k += 1;
        }
    }
    proof {
        assert(parse_quoted(s@, k as int, acc@) is None);
    }
    None
}

/// Reads a digit run starting at `i`, as `parse_number` does.
fn parse_number_str(s: &str, i: usize) -> (r: Option<(u32, usize)>)
    ensures
        match r {
            Some(t) => parse_number(s@, i as int) == Some((t.0, t.1 as int)) && i < t.1 <= s@.len(),
            None => parse_number(s@, i as int) is None,
        },
{
    let sl = s.unicode_len();
    if i >= sl {
        return None;
    }
    match crate::text::char_digit(s.get_char(i)) {
        None => {
            return None;
        },
        Some(_) => {},
    }
    let mut acc: u64 = 0;
    let mut k: usize = i;
    while k < sl
        invariant
            i <= k <= sl,
            i < sl,
            sl == s@.len(),
            is_digit(s@[i as int]),
            acc <= u32::MAX,
            parse_number(s@, i as int) == parse_num_rest(s@, i as int, 0),
            parse_num_rest(s@, i as int, 0) == parse_num_rest(s@, k as int, acc as nat),
        decreases sl - k,
    {
        let c = s.get_char(k);
        match crate::text::char_digit(c) {
            None => {
                proof {
                    assert(k != i);
                    assert(parse_num_rest(s@, k as int, acc as nat) == Some(
                        (acc as u32, k as int),
                    ));
                }
                return Some((acc as u32, k));
            },
            Some(d) => {
                let next: u64 = acc * 10 + (d as u64);
                proof {
                    assert(parse_num_rest(s@, k as int, acc as nat) == parse_num_rest(
                        s@,
                        k + 1,
                        (acc as nat) * 10 + digit_val(c),
                    ));
                }
                if next > u32::MAX as u64 {
                    proof {
                        lemma_parse_num_rest_overflow(s@, k + 1, (acc as nat) * 10 + digit_val(c));
                    }
                    return None;
                }
                acc = next;
                k += 1;
            },
        }
    }
    proof {
        assert(k > i);
        assert(parse_num_rest(s@, k as int, acc as nat) == Some((acc as u32, k as int)));
    }
    Some((acc as u32, k))
}

/// Reads a `key "body"` line, as `parse_str_field` does.
fn parse_str_field_str(s: &str, i: usize, key: &str) -> (r: Option<(String, usize)>)
    ensures
        match r {
            Some(t) => parse_str_field(s@, i as int, key@) == Some((t.0@, t.1 as int)) && i < t.1
                <= s@.len(),
            None => parse_str_field(s@, i as int, key@) is None,
        },
{
    match try_lit(s, i, key) {
        None => None,
        Some(j) => match parse_quoted_str(s, j) {
            None => None,
            Some((t, j2)) => match try_lit(s, j2, "\n") {
                None => {
                    proof {
                        reveal_strlit("\n");
                        assert("\n"@ =~= seq!['\n']);
                    }
                    None
                },
                Some(j3) => {
                    proof {
                        reveal_strlit("\n");
                        assert("\n"@ =~= seq!['\n']);
                    }
                    Some((t, j3))
                },
            },
        },
    }
}

/// Reads an `id = N` line, as `parse_id_line` does.
fn parse_id_line_str(s: &str, i: usize) -> (r: Option<(u32, usize)>)
    ensures
        match r {
            Some(t) => parse_id_line(s@, i as int) == Some((t.0, t.1 as int)) && i < t.1
                <= s@.len(),
            None => parse_id_line(s@, i as int) is None,
        },
{
    proof {
        reveal_strlit("id = ");
        assert("id = "@ =~= lit_id());
    }
    match try_lit(s, i, "id = ") {
        None => None,
        Some(j) => match parse_number_str(s, j) {
            None => None,
            Some((n, j2)) => match try_lit(s, j2, "\n") {
                None => {
                    proof {
                        reveal_strlit("\n");
                        assert("\n"@ =~= seq!['\n']);
                    }
                    None
                },
                Some(j3) => {
                    proof {
                        reveal_strlit("\n");
                        assert("\n"@ =~= seq!['\n']);
                    }
                    Some((n, j3))
                },
            },
        },
    }
}

/// Reads one task block, as `parse_task` does.
fn parse_task_str(s: &str, i: usize) -> (r: Option<(Task, usize)>)
    ensures
        match r {
            Some(t) => parse_task(s@, i as int) == Some((t.0@, t.1 as int)) && i < t.1 <= s@.len(),
            None => parse_task(s@, i as int) is None,
        },
{
    proof {
        reveal_strlit("[[projects.tasks]]\n");
        assert("[[projects.tasks]]\n"@ =~= lit_task_header());
        reveal_strlit("description = \"");
        assert("description = \""@ =~= lit_description());
    }
    match try_lit(s, i, "[[projects.tasks]]\n") {
        None => None,
        Some(j) => match parse_id_line_str(s, j) {
            None => None,
            Some((id, j2)) => match parse_str_field_str(s, j2, "description = \"") {
                None => None,
                Some((d, j3)) => Some((Task { id, description: d }, j3)),
            },
        },
    }
}

/// Reads one note block, as `parse_note` does.
fn parse_note_str(s: &str, i: usize) -> (r: Option<(Note, usize)>)
    ensures
        match r {
            Some(t) => parse_note(s@, i as int) == Some((t.0@, t.1 as int)) && i < t.1 <= s@.len(),
            None => parse_note(s@, i as int) is None,
        },
{
    proof {
        reveal_strlit("[[projects.notes]]\n");
        assert("[[projects.notes]]\n"@ =~= lit_note_header());
        reveal_strlit("description = \"");
        assert("description = \""@ =~= lit_description());
        reveal_strlit("content = \"");
        assert("content = \""@ =~= lit_content());
    }
    match try_lit(s, i, "[[projects.notes]]\n") {
        None => None,
        Some(j) => match parse_id_line_str(s, j) {
            None => None,
            Some((id, j2)) => match parse_str_field_str(s, j2, "description = \"") {
                None => None,
                Some((d, j3)) => match parse_str_field_str(s, j3, "content = \"") {
                    None => None,
                    Some((c, j4)) => Some((Note { id, description: d, content: c }, j4)),
                },
            },
        },
    }
}

/// Reads the run of task blocks starting at `i`, as `parse_tasks` does.
fn parse_tasks_str(s: &str, i: usize) -> (r: (Vec<Task>, usize))
    ensures
        parse_tasks(s@, i as int, Seq::empty()) == (
            r.0@.map_values(|t: Task| t@),
            r.1 as int,
        ),
        i <= r.1 <= s@.len() || r.1 == i,
{
    let mut tasks: Vec<Task> = Vec::new();
    let ghost mut accv: Seq<TaskView> = Seq::empty();
    let mut k: usize = i;
    loop
        invariant
            i <= k,
            k <= s@.len() || k == i,
            tasks@.len() == accv.len(),
            forall|m: int| 0 <= m < accv.len() ==> (#[trigger] tasks@[m])@ == accv[m],
            parse_tasks(s@, i as int, Seq::empty()) == parse_tasks(s@, k as int, accv),
        decreases s@.len() - k + 1,
    {
        match parse_task_str(s, k) {
            None => {
                proof {
                    assert(parse_tasks(s@, k as int, accv) == (accv, k as int));
                    assert forall|m: int|
                        0 <= m < accv.len() implies tasks@.map_values(|t: Task| t@)[m] == accv[m]
                    by {
                        assert(tasks@[m]@ == accv[m]);
                    }
                    assert(tasks@.map_values(|t: Task| t@) =~= accv);
                }
                return (tasks, k);
            },
            Some((t, j)) => {
                proof {
                    assert(parse_tasks(s@, k as int, accv) == parse_tasks(s@, j as int, accv.push(
                        t@,
                    )));
                    accv = accv.push(t@);
                }
                tasks.push(t);
                k = j;
            },
        }
    }
}

/// Reads the run of note blocks starting at `i`, as `parse_notes` does.
fn parse_notes_str(s: &str, i: usize) -> (r: (Vec<Note>, usize))
    ensures
        parse_notes(s@, i as int, Seq::empty()) == (
            r.0@.map_values(|n: Note| n@),
            r.1 as int,
        ),
        i <= r.1 <= s@.len() || r.1 == i,
{
    let mut notes: Vec<Note> = Vec::new();
    let ghost mut accv: Seq<NoteView> = Seq::empty();
    let mut k: usize = i;
    loop
        invariant
            i <= k,
            k <= s@.len() || k == i,
            notes@.len() == accv.len(),
            forall|m: int| 0 <= m < accv.len() ==> (#[trigger] notes@[m])@ == accv[m],
            parse_notes(s@, i as int, Seq::empty()) == parse_notes(s@, k as int, accv),
        decreases s@.len() - k + 1,
    {
        match parse_note_str(s, k) {
            None => {
                proof {
                    assert(parse_notes(s@, k as int, accv) == (accv, k as int));
                    assert forall|m: int|
                        0 <= m < accv.len() implies notes@.map_values(|n: Note| n@)[m] == accv[m]
                    by {
                        assert(notes@[m]@ == accv[m]);
                    }
                    assert(notes@.map_values(|n: Note| n@) =~= accv);
                }
                return (notes, k);
            },
            Some((n, j)) => {
                proof {
                    assert(parse_notes(s@, k as int, accv) == parse_notes(s@, j as int, accv.push(
                        n@,
                    )));
                    accv = accv.push(n@);
                }
                notes.push(n);
                k = j;
            },
        }
    }
}

/// Reads one project block, as `parse_project` does.
fn parse_project_str(s: &str, i: usize) -> (r: Option<(Project, usize)>)
    ensures
        match r {
            Some(t) => parse_project(s@, i as int) == Some((t.0@, t.1 as int)) && i < t.1
                <= s@.len(),
            None => parse_project(s@, i as int) is None,
        },
{
    proof {
        reveal_strlit("[[projects]]\n");
        assert("[[projects]]\n"@ =~= lit_project_header());
        reveal_strlit("name = \"");
        assert("name = \""@ =~= lit_name());
    }
    match try_lit(s, i, "[[projects]]\n") {
        None => None,
        Some(j) => match parse_id_line_str(s, j) {
            None => None,
            Some((id, j2)) => match parse_str_field_str(s, j2, "name = \"") {
                None => None,
                Some((name, j3)) => {
                    let (tasks, j4) = parse_tasks_str(s, j3);
                    let (notes, j5) = parse_notes_str(s, j4);
                    let p = Project { id, name, tasks, notes };
                    proof {
                        assert(p@.tasks == tasks@.map_values(|t: Task| t@));
                        assert(p@.notes == notes@.map_values(|n: Note| n@));
                    }
                    Some((p, j5))
                },
            },
        },
    }
}

/// Reads the run of project blocks starting at `i`, as `parse_projects`
/// does.
fn parse_projects_str(s: &str, i: usize) -> (r: (Vec<Project>, usize))
    ensures
        parse_projects(s@, i as int, Seq::empty()) == (
            r.0@.map_values(|p: Project| p@),
            r.1 as int,
        ),
        i <= r.1 <= s@.len() || r.1 == i,
{
    let mut projects: Vec<Project> = Vec::new();
    let ghost mut accv: Seq<ProjectView> = Seq::empty();
    let mut k: usize = i;
    loop
        invariant
            i <= k,
            k <= s@.len() || k == i,
            projects@.len() == accv.len(),
            forall|m: int| 0 <= m < accv.len() ==> (#[trigger] projects@[m])@ == accv[m],
            parse_projects(s@, i as int, Seq::empty()) == parse_projects(s@, k as int, accv),
        decreases s@.len() - k + 1,
    {
        match parse_project_str(s, k) {
            None => {
                proof {
                    assert(parse_projects(s@, k as int, accv) == (accv, k as int));
                    assert forall|m: int|
                        0 <= m < accv.len() implies projects@.map_values(|p: Project| p@)[m]
                        == accv[m] by {
                        assert(projects@[m]@ == accv[m]);
                    }
                    assert(projects@.map_values(|p: Project| p@) =~= accv);
                }
                return (projects, k);
            },
            Some((p, j)) => {
                proof {
                    assert(parse_projects(s@, k as int, accv) == parse_projects(
                        s@,
                        j as int,
                        accv.push(p@),
                    ));
                    accv = accv.push(p@);
                }
                projects.push(p);
                k = j;
            },
        }
    }
}

/// Reads a whole document back into a state, exactly as `spec_parse_state`
/// describes; malformed text yields nothing.
pub fn decode_state(s: &str) -> (r: Option<TedoState>)
    ensures
        match r {
            Some(st) => spec_parse_state(s@) == Some(st@),
            None => spec_parse_state(s@) is None,
        },
{
    proof {
        reveal_strlit("current_project = \"");
        assert("current_project = \""@ =~= lit_current());
        reveal_strlit("\n");
        assert("\n"@ =~= seq!['\n']);
    }
    let (cur, start): (Option<String>, usize) = match try_lit(s, 0, "current_project = \"") {
        Some(j) => {
            match parse_quoted_str(s, j) {
                None => {
                    return None;
                },
                Some((t, j2)) => {
                    match try_lit(s, j2, "\n") {
                        None => {
                            return None;
                        },
                        Some(j3) => (Some(t), j3),
                    }
                },
            }
        },
        None => (None, 0),
    };
    let (projects, end) = parse_projects_str(s, start);
    if end != s.unicode_len() {
        return None;
    }
    let st = TedoState { current_project: cur, projects };
    proof {
        assert(st@.projects == projects@.map_values(|p: Project| p@));
    }
    Some(st)
}

} // verus!
