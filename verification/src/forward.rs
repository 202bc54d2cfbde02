//! Operations as text that names values before they are defined.

use crate::ir::{TypeHandle, Value};
use crate::memref::attributes::ParseErr;
use crate::op_text;
use crate::op_text::{Body, BodyView, NamedValue, Syntax};
use crate::search;
use crate::text;
use crate::text::CharClass;
use crate::tokens;
use vstd::prelude::*;

verus! {

/// The name at `pos`.
pub open spec fn name_at(t: Seq<char>, pos: int) -> Seq<char> {
    t.subrange(pos, text::run_end(t, pos, CharClass::Word))
}

/// At each position, a name begins that no value has.
pub open spec fn unknown(table: Seq<NamedValue>, t: Seq<char>) -> spec_fn(int) -> bool {
    |pos: int| op_text::starts_name(t, pos) && op_text::value_named(table, name_at(t, pos)) is None
}

/// `longer` is `table` with the names at which reading an operation stops, one after the
/// other. They stand for new values of the type `ty`, which are numbered from `next` on.
pub open spec fn with_forward_references(
    table: Seq<NamedValue>,
    longer: Seq<NamedValue>,
    ty: TypeHandle,
    next: usize,
    syntax: Syntax,
    t: Seq<char>,
    pos: int,
) -> bool {
    &&& table.len() <= longer.len()
    &&& longer.take(table.len() as int) == table
    &&& forall|k: int|
        table.len() <= k < longer.len() ==> {
            &&& (#[trigger] longer[k]).value == (Value { id: (next + k - table.len()) as usize, ty })
            &&& op_text::body_at(longer.take(k), syntax, t, pos) matches Err(
                ParseErr::UnknownValue { at },
            ) && longer[k].name@ == name_at(t, at as int)
        }
}

/// An unknown value that is reported stands in the text, and has no name in the table.
spec fn blamed(table: Seq<NamedValue>, t: Seq<char>, error: ParseErr) -> bool {
    error matches ParseErr::UnknownValue { at } ==> at < t.len() && unknown(table, t)(at as int)
}

proof fn lemma_value(table: Seq<NamedValue>, t: Seq<char>, pos: int)
    requires
        0 <= pos <= t.len() <= usize::MAX,
    ensures
        op_text::value_at(table, t, pos) matches Ok((_, end)) ==> pos <= end <= t.len(),
        op_text::value_at(table, t, pos) matches Err(error) ==> blamed(table, t, error),
{
    text::lemma_run_end(t, pos, CharClass::Word);
}

proof fn lemma_params(table: Seq<NamedValue>, syntax: Syntax, t: Seq<char>, pos: int)
    requires
        0 <= pos <= t.len() <= usize::MAX,
    ensures
        op_text::some_params_at(table, syntax, t, pos) matches Ok((_, end)) ==> pos <= end
            <= t.len(),
        op_text::some_params_at(table, syntax, t, pos) matches Err(error) ==> blamed(
            table,
            t,
            error,
        ),
    decreases t.len() - pos,
{
    lemma_value(table, t, pos);
    op_text::lemma_param_end(table, syntax, t, pos);
    if let Ok((_, end)) = op_text::param_at(table, syntax, t, pos) {
        tokens::lemma_spaces_end(t, end);
        let next = text::spaces_end(t, end);
        if next < t.len() && t[next] == ',' {
            tokens::lemma_spaces_end(t, next + 1);
            lemma_params(table, syntax, t, text::spaces_end(t, next + 1));
        }
    }
}

proof fn lemma_list(table: Seq<NamedValue>, syntax: Syntax, t: Seq<char>, pos: int)
    requires
        0 <= pos <= t.len() <= usize::MAX,
    ensures
        op_text::list_at(table, syntax, t, pos) matches Ok((_, end)) ==> pos <= end <= t.len(),
        op_text::list_at(table, syntax, t, pos) matches Err(error) ==> blamed(table, t, error),
{
    if let Ok(inner) = tokens::token_at(t, pos, op_text::open_text(syntax)) {
        tokens::lemma_spaces_end(t, inner);
        lemma_params(table, syntax, t, text::spaces_end(t, inner));
    }
}

proof fn lemma_lists(table: Seq<NamedValue>, syntax: Syntax, t: Seq<char>, pos: int, n: nat)
    requires
        0 <= pos <= t.len() <= usize::MAX,
    ensures
        op_text::lists_at(table, syntax, t, pos, n) matches Ok((_, end)) ==> pos <= end <= t.len(),
        op_text::lists_at(table, syntax, t, pos, n) matches Err(error) ==> blamed(
            table,
            t,
            error,
        ),
    decreases n,
{
    if n > 0 {
        tokens::lemma_spaces_end(t, pos);
        let first = text::spaces_end(t, pos);
        lemma_list(table, syntax, t, first);
        if let Ok((_, end)) = op_text::list_at(table, syntax, t, first) {
            lemma_lists(table, syntax, t, end, (n - 1) as nat);
        }
    }
}

proof fn lemma_body(table: Seq<NamedValue>, syntax: Syntax, t: Seq<char>, pos: int)
    requires
        0 <= pos <= t.len() <= usize::MAX,
    ensures
        op_text::body_at(table, syntax, t, pos) matches Err(error) ==> blamed(table, t, error),
{
    lemma_value(table, t, pos);
    if let Ok((_, end)) = op_text::value_at(table, t, pos) {
        if let Some(keyword) = syntax.keyword {
            tokens::lemma_spaces_end(t, end);
            let piece = op_text::keyword_text(keyword);
            if let Ok(next) = tokens::spaced_at(t, end, piece) {
                tokens::lemma_spaces_end(t, text::spaces_end(t, end) + piece.len());
                lemma_value(table, t, next);
            }
        }
    }
    if let Ok((_, after)) = op_text::operands_at(table, syntax, t, pos) {
        lemma_lists(table, syntax, t, after, syntax.lists as nat);
    }
}

/// A name that is added to a table is known, and no name becomes unknown.
proof fn lemma_added(table: Seq<NamedValue>, added: NamedValue, t: Seq<char>, at: int)
    requires
        0 <= at < t.len(),
        unknown(table, t)(at),
        added.name@ == name_at(t, at),
    ensures
        search::count_where(t.len(), unknown(table.push(added), t)) < search::count_where(
            t.len(),
            unknown(table, t),
        ),
{
    let longer = table.push(added);
    let n = table.len();
    assert forall|pos: int| 0 <= pos < t.len() && #[trigger] unknown(longer, t)(pos) implies unknown(
        table,
        t,
    )(pos) by {
        let name = name_at(t, pos);
        search::lemma_first_where(n + 1, op_text::name_matches(longer, name));
        search::lemma_first_where(n, op_text::name_matches(table, name));
        if let Some(i) = search::first_where(n, op_text::name_matches(table, name)) {
            assert(op_text::name_matches(longer, name)(i));
        }
    }
    let name = name_at(t, at);
    search::lemma_first_where(n + 1, op_text::name_matches(longer, name));
    assert(op_text::name_matches(longer, name)(n as int));
    assert(!unknown(longer, t)(at));
    search::lemma_count_where_less(t.len(), unknown(table, t), unknown(longer, t), at);
}

/// The operands and lists at `pos`, and where what comes behind them begins. A name that no
/// value has so far stands for a new value of the type `ty`, whose definition is still to come.
/// It is added to the table, under the numbers from `next` on.
pub fn parse_body(
    table: &mut Vec<NamedValue>,
    ty: TypeHandle,
    next: usize,
    syntax: Syntax,
    t: &[char],
    pos: usize,
) -> (r: Result<(Body, usize), ParseErr>)
    requires
        pos <= t@.len(),
        next + t@.len() <= usize::MAX,
    ensures
        with_forward_references(
            old(table)@,
            final(table)@,
            ty,
            next,
            syntax,
            t@,
            pos as int,
        ),
        match r {
            Ok((body, end)) => op_text::body_at(final(table)@, syntax, t@, pos as int) == Ok::<
                (BodyView, int),
                ParseErr,
            >((body@, end as int)) && pos <= end <= t@.len() && op_text::body_shape(
                syntax,
                body@,
            ) && op_text::lists_within(body@, t@.len()),
            Err(error) => op_text::body_at(final(table)@, syntax, t@, pos as int) == Err::<
                (BodyView, int),
                ParseErr,
            >(error) && !(error is UnknownValue),
        },
{
    let ghost start = table@;
    let ghost len = t.len();
    let mut added: usize = 0;
    proof {
        assert(start.take(start.len() as int) =~= start);
        search::lemma_count_where_bound(t@.len(), unknown(start, t@));
    }
    loop
        invariant
            len == t@.len() <= usize::MAX,
            pos <= t@.len(),
            next + t@.len() <= usize::MAX,
            table@.len() == start.len() + added,
            added + search::count_where(t@.len(), unknown(table@, t@)) <= t@.len(),
            with_forward_references(start, table@, ty, next, syntax, t@, pos as int),
            start == old(table)@,
        decreases search::count_where(t@.len(), unknown(table@, t@)),
    {
        let at: usize = match op_text::parse_known_body(&*table, syntax, t, pos) {
            Err(ParseErr::UnknownValue { at }) => at,
            r => {
                return r;
            },
        };
        let ghost before = table@;
        proof {
            lemma_body(before, syntax, t@, pos as int);
            text::lemma_run_end(t@, at as int, CharClass::Word);
        }
        let end: usize = text::find_run_end(t, at, CharClass::Word);
        let mut name: Vec<char> = Vec::new();
        text::push_text(&mut name, vstd::slice::slice_subrange(t, at, end));
        assert(name@ =~= name_at(t@, at as int));
        let named = NamedValue { name, value: Value { id: next + added, ty } };
        proof {
            lemma_added(before, named, t@, at as int);
        }
        table.push(named);
        added += 1;
        proof {
            let now = table@;
            assert(now == before.push(named));
            assert(now.take(start.len() as int) =~= before.take(start.len() as int));
            assert forall|k: int| start.len() <= k < now.len() implies {
                &&& (#[trigger] now[k]).value == (Value {
                    id: (next + k - start.len()) as usize,
                    ty,
                })
                &&& op_text::body_at(now.take(k), syntax, t@, pos as int) matches Err(
                    ParseErr::UnknownValue { at },
                ) && now[k].name@ == name_at(t@, at as int)
            } by {
                if k < before.len() {
                    assert(now[k] == before[k]);
                    assert(now.take(k) =~= before.take(k));
                } else {
                    assert(now.take(k) =~= before);
                }
            }
        }
    }
}

/// An operation whose values all have names is read without new ones.
pub proof fn law_known_values(
    table: Seq<NamedValue>,
    longer: Seq<NamedValue>,
    ty: TypeHandle,
    next: usize,
    syntax: Syntax,
    t: Seq<char>,
    pos: int,
)
    requires
        with_forward_references(table, longer, ty, next, syntax, t, pos),
        op_text::body_at(table, syntax, t, pos) is Ok,
    ensures
        longer == table,
{
    assert(longer.len() == table.len()) by {
        if longer.len() > table.len() {
            let k = table.len() as int;
            assert(longer[k].value.ty == ty);
        }
    }
    assert(longer =~= longer.take(table.len() as int));
}

} // verus!
