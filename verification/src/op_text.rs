//! Operations as text: operands by name, lists in brackets, and a type.
//!
//! What is written here comes behind the name of the operation, and in front of the type of
//! its result.

use crate::ir::{TypeHandle, Value};
use crate::memref::attributes::ParseErr;
use crate::memref::slices::SliceParam;
use crate::search;
use crate::text;
use crate::text::CharClass;
use crate::tokens;
use vstd::prelude::*;

verus! {

/// A value and its name.
#[derive(Debug)]
pub struct NamedValue {
    pub name: Vec<char>,
    pub value: Value,
}

/// The value at each index is the given one.
pub open spec fn value_matches(table: Seq<NamedValue>, value: Value) -> spec_fn(int) -> bool {
    |i: int| table[i].value == value
}

/// The name at each index is the given one.
pub open spec fn name_matches(table: Seq<NamedValue>, name: Seq<char>) -> spec_fn(int) -> bool {
    |i: int| table[i].name@ == name
}

/// The value has a name.
pub open spec fn is_named(table: Seq<NamedValue>, value: Value) -> bool {
    search::first_where(table.len(), value_matches(table, value)) is Some
}

/// The name of a value.
pub open spec fn name_of(table: Seq<NamedValue>, value: Value) -> Seq<char> {
    table[search::first_where(table.len(), value_matches(table, value))->Some_0].name@
}

/// The value with a name, if there is one.
pub open spec fn value_named(table: Seq<NamedValue>, name: Seq<char>) -> Option<Value> {
    match search::first_where(table.len(), name_matches(table, name)) {
        Some(i) => Some(table[i].value),
        None => None,
    }
}

/// Names are identifiers, and no two are the same.
pub open spec fn names_wf(table: Seq<NamedValue>) -> bool {
    &&& forall|i: int| 0 <= i < table.len() ==> text::is_identifier(#[trigger] table[i].name@)
    &&& forall|i: int, j: int|
        0 <= i < j < table.len() ==> #[trigger] table[i].name@ != #[trigger] table[j].name@
}

/// A value is found by its name.
pub proof fn law_value_of_name(table: Seq<NamedValue>, value: Value)
    requires
        names_wf(table),
        is_named(table, value),
    ensures
        value_named(table, name_of(table, value)) == Some(value),
        text::is_identifier(name_of(table, value)),
{
    let n = table.len();
    search::lemma_first_where(n, value_matches(table, value));
    let i = search::first_where(n, value_matches(table, value))->Some_0;
    let name = table[i].name@;
    assert(name_matches(table, name)(i));
    search::lemma_first_where(n, name_matches(table, name));
    let j = search::first_where(n, name_matches(table, name))->Some_0;
    assert(name_matches(table, name)(j));
    if i < j {
        assert(table[i].name@ != table[j].name@);
    } else if j < i {
        assert(table[j].name@ != table[i].name@);
    }
}

fn same_text(a: &[char], b: &[char]) -> (r: bool)
    ensures
        r == (a@ == b@),
{
    let same: bool = a.len() == b.len() && text::stands_at(a, 0, b);
    proof {
        if same {
            assert forall|k: int| 0 <= k < b@.len() implies a@[k] == b@[k] by {
                assert(a@[0 + k] == b@[k]);
            }
            assert(a@ =~= b@);
        } else if a@ == b@ {
            assert(text::occurs_at(a@, 0, b@));
        }
    }
    same
}

/// Appends the name of a value.
fn push_name(out: &mut Vec<char>, table: &Vec<NamedValue>, value: Value)
    requires
        is_named(table@, value),
    ensures
        final(out)@ == old(out)@ + name_of(table@, value),
{
    let ghost found = value_matches(table@, value);
    let mut i: usize = 0;
    while i < table.len()
        invariant
            i <= table@.len(),
            found == value_matches(table@, value),
            is_named(table@, value),
            search::first_where(i as nat, found) is None,
            out@ == old(out)@,
        decreases table@.len() - i,
    {
        if table[i].value == value {
            proof {
                assert(found(i as int));
                search::lemma_first_where_stable((i + 1) as nat, table@.len(), found);
            }
            text::push_text(out, table[i].name.as_slice());
            return;
        }
        assert(!found(i as int));
        i += 1;
    }
}

/// The value with a name, if there is one.
pub fn find_value(table: &Vec<NamedValue>, name: &[char]) -> (r: Option<Value>)
    ensures
        r == value_named(table@, name@),
{
    let ghost found = name_matches(table@, name@);
    let mut i: usize = 0;
    while i < table.len()
        invariant
            i <= table@.len(),
            found == name_matches(table@, name@),
            search::first_where(i as nat, found) is None,
        decreases table@.len() - i,
    {
        if same_text(table[i].name.as_slice(), name) {
            proof {
                assert(found(i as int));
                search::lemma_first_where_stable((i + 1) as nat, table@.len(), found);
            }
            return Some(table[i].value);
        }
        assert(!found(i as int));
        i += 1;
    }
    None
}

/// The word between two operands.
#[derive(Clone, Copy, Debug, PartialEq, Eq, Structural)]
pub enum Keyword {
    To,
    Into,
}

/// How an operation is written.
#[derive(Clone, Copy, Debug, PartialEq, Eq, Structural)]
pub struct Syntax {
    /// There is a second operand, behind a word.
    pub keyword: Option<Keyword>,
    /// Lists stand in round brackets, not in square ones.
    pub round: bool,
    /// A space comes in front of each list.
    pub apart: bool,
    /// The number of lists.
    pub lists: usize,
    /// Lists hold constants as well as values.
    pub constants: bool,
    /// A colon comes last.
    pub typed: bool,
}

/// What a [Body] is.
#[verifier::ext_equal]
pub struct BodyView {
    pub operands: Seq<Value>,
    pub lists: Seq<Seq<SliceParam>>,
}

/// The operands and lists of an operation.
#[derive(Debug)]
pub struct Body {
    pub operands: Vec<Value>,
    pub lists: Vec<Vec<SliceParam>>,
}

impl View for Body {
    type V = BodyView;

    open spec fn view(&self) -> BodyView {
        BodyView {
            operands: self.operands@,
            lists: Seq::new(self.lists@.len(), |i: int| self.lists@[i]@),
        }
    }
}

/// The parameter can be written.
pub open spec fn param_fits(table: Seq<NamedValue>, syntax: Syntax, param: SliceParam) -> bool {
    match param {
        SliceParam::Static(_) => syntax.constants,
        SliceParam::Dynamic(value) => is_named(table, value),
    }
}

pub open spec fn list_fits(
    table: Seq<NamedValue>,
    syntax: Syntax,
    list: Seq<SliceParam>,
) -> bool {
    forall|i: int| 0 <= i < list.len() ==> param_fits(table, syntax, #[trigger] list[i])
}

/// The operands and lists can be written.
pub open spec fn body_fits(table: Seq<NamedValue>, syntax: Syntax, body: BodyView) -> bool {
    &&& body.operands.len() == if syntax.keyword is Some {
        2int
    } else {
        1
    }
    &&& forall|i: int|
        0 <= i < body.operands.len() ==> is_named(table, #[trigger] body.operands[i])
    &&& body.lists.len() == syntax.lists
    &&& forall|i: int|
        0 <= i < body.lists.len() ==> list_fits(table, syntax, #[trigger] body.lists[i])
}

/// Every parameter is a value.
pub open spec fn all_values(list: Seq<SliceParam>) -> bool {
    forall|i: int| 0 <= i < list.len() ==> #[trigger] list[i] is Dynamic
}

/// There are as many operands and lists as the syntax has, and constants only if it has them.
pub open spec fn body_shape(syntax: Syntax, body: BodyView) -> bool {
    &&& body.operands.len() == if syntax.keyword is Some {
        2int
    } else {
        1
    }
    &&& body.lists.len() == syntax.lists
    &&& !syntax.constants ==> forall|i: int|
        0 <= i < body.lists.len() ==> all_values(#[trigger] body.lists[i])
}

/// The number of parameters in a list that a machine word can count, three times and with two
/// operands.
pub open spec fn max_list() -> nat {
    ((usize::MAX - 2) / 3) as nat
}

/// No list is longer than `max`.
pub open spec fn lists_within(body: BodyView, max: nat) -> bool {
    forall|i: int| 0 <= i < body.lists.len() ==> (#[trigger] body.lists[i]).len() <= max
}

// Printing
pub open spec fn keyword_text(keyword: Keyword) -> Seq<char> {
    match keyword {
        Keyword::To => "to"@,
        Keyword::Into => "into"@,
    }
}

pub open spec fn open_text(syntax: Syntax) -> Seq<char> {
    if syntax.round {
        "("@
    } else {
        "["@
    }
}

pub open spec fn close_text(syntax: Syntax) -> Seq<char> {
    if syntax.round {
        ")"@
    } else {
        "]"@
    }
}

pub open spec fn param_text(table: Seq<NamedValue>, param: SliceParam) -> Seq<char> {
    match param {
        SliceParam::Static(n) => text::decimal(n as nat),
        SliceParam::Dynamic(value) => name_of(table, value),
    }
}

pub open spec fn param_texts(table: Seq<NamedValue>, list: Seq<SliceParam>) -> Seq<Seq<char>> {
    Seq::new(list.len(), |i: int| param_text(table, list[i]))
}

/// The text of a list.
pub open spec fn list_text(
    table: Seq<NamedValue>,
    syntax: Syntax,
    list: Seq<SliceParam>,
) -> Seq<char> {
    open_text(syntax) + text::joined(param_texts(table, list), ", "@) + close_text(syntax)
}

/// The text of lists, one after the other.
pub open spec fn lists_text(
    table: Seq<NamedValue>,
    syntax: Syntax,
    lists: Seq<Seq<SliceParam>>,
) -> Seq<char>
    decreases lists.len(),
{
    if lists.len() == 0 {
        Seq::empty()
    } else {
        (if syntax.apart {
            " "@
        } else {
            Seq::empty()
        }) + list_text(table, syntax, lists[0]) + lists_text(table, syntax, lists.skip(1))
    }
}

/// The text of operands.
pub open spec fn operands_text(
    table: Seq<NamedValue>,
    syntax: Syntax,
    operands: Seq<Value>,
) -> Seq<char> {
    match syntax.keyword {
        None => name_of(table, operands[0]),
        Some(keyword) => name_of(table, operands[0]) + " "@ + keyword_text(keyword) + " "@
            + name_of(table, operands[1]),
    }
}

/// The text of an operation, from behind its name up to the type of its result.
pub open spec fn body_text(table: Seq<NamedValue>, syntax: Syntax, body: BodyView) -> Seq<char> {
    operands_text(table, syntax, body.operands) + lists_text(table, syntax, body.lists) + if
        syntax.typed {
        " : "@
    } else {
        Seq::empty()
    }
}

fn push_params(
    out: &mut Vec<char>,
    table: &Vec<NamedValue>,
    syntax: Syntax,
    list: &Vec<SliceParam>,
)
    requires
        list_fits(table@, syntax, list@),
    ensures
        final(out)@ == old(out)@ + text::joined(param_texts(table@, list@), ", "@),
{
    let ghost start = out@;
    let ghost all = param_texts(table@, list@);
    let mut i: usize = 0;
    assert(all.take(0) =~= Seq::<Seq<char>>::empty());
    while i < list.len()
        invariant
            i <= list@.len(),
            all == param_texts(table@, list@),
            list_fits(table@, syntax, list@),
            out@ == start + text::joined(all.take(i as int), ", "@),
        decreases list@.len() - i,
    {
        proof {
            assert(param_fits(table@, syntax, list@[i as int]));
            assert(all.take(i + 1) =~= all.take(i as int).push(all[i as int]));
            text::lemma_joined_push(all.take(i as int), ", "@, all[i as int]);
        }
        if i > 0 {
            text::push_str(out, ", ");
        }
        match list[i] {
            SliceParam::Static(n) => {
                let digits: Vec<char> = text::make_decimal(n);
                text::push_text(out, digits.as_slice());
            },
            SliceParam::Dynamic(value) => push_name(out, table, value),
        }
        i += 1;
        assert(out@ =~= start + text::joined(all.take(i as int), ", "@));
    }
    assert(all.take(list@.len() as int) =~= all);
}

fn push_list(out: &mut Vec<char>, table: &Vec<NamedValue>, syntax: Syntax, list: &Vec<SliceParam>)
    requires
        list_fits(table@, syntax, list@),
    ensures
        final(out)@ == old(out)@ + list_text(table@, syntax, list@),
{
    if syntax.round {
        text::push_str(out, "(");
    } else {
        text::push_str(out, "[");
    }
    push_params(out, table, syntax, list);
    if syntax.round {
        text::push_str(out, ")");
    } else {
        text::push_str(out, "]");
    }
    assert(out@ =~= old(out)@ + list_text(table@, syntax, list@));
}

/// The text of an operation, from behind its name up to the type of its result.
pub fn print_body(table: &Vec<NamedValue>, syntax: Syntax, body: &Body) -> (r: Vec<char>)
    requires
        body_fits(table@, syntax, body@),
    ensures
        r@ == body_text(table@, syntax, body@),
{
    let mut out: Vec<char> = Vec::new();
    assert(is_named(table@, body@.operands[0]));
    push_name(&mut out, table, body.operands[0]);
    if let Some(keyword) = syntax.keyword {
        text::push_str(&mut out, " ");
        match keyword {
            Keyword::To => text::push_str(&mut out, "to"),
            Keyword::Into => text::push_str(&mut out, "into"),
        }
        text::push_str(&mut out, " ");
        assert(is_named(table@, body@.operands[1]));
        push_name(&mut out, table, body.operands[1]);
    }
    let ghost head = out@;
    assert(head =~= operands_text(table@, syntax, body@.operands));
    let ghost all = body@.lists;
    let mut i: usize = 0;
    assert(all.skip(0) =~= all);
    assert(out@ + lists_text(table@, syntax, all.skip(0)) =~= head + lists_text(
        table@,
        syntax,
        all,
    ));
    while i < body.lists.len()
        invariant
            i <= body.lists@.len(),
            all == body@.lists,
            body_fits(table@, syntax, body@),
            out@ + lists_text(table@, syntax, all.skip(i as int)) == head + lists_text(
                table@,
                syntax,
                all,
            ),
        decreases body.lists@.len() - i,
    {
        let ghost before = out@;
        let ghost rest = lists_text(table@, syntax, all.skip(i + 1));
        proof {
            assert(list_fits(table@, syntax, all[i as int]));
            assert(all.skip(i as int).skip(1) =~= all.skip(i + 1));
            assert(all.skip(i as int)[0] == all[i as int]);
        }
        if syntax.apart {
            text::push_str(&mut out, " ");
        }
        push_list(&mut out, table, syntax, &body.lists[i]);
        i += 1;
        assert(out@ + rest =~= before + lists_text(table@, syntax, all.skip(i - 1)));
    }
    assert(all.skip(body.lists@.len() as int) =~= Seq::<Seq<SliceParam>>::empty());
    assert(out@ =~= head + lists_text(table@, syntax, all));
    if syntax.typed {
        text::push_str(&mut out, " : ");
    }
    assert(out@ =~= body_text(table@, syntax, body@));
    out
}

// Parsing
/// A name begins here.
pub open spec fn starts_name(t: Seq<char>, pos: int) -> bool {
    pos < t.len() && (text::is_letter(t[pos]) || t[pos] == '_')
}

/// The value whose name stands at `pos`, and where the name ends.
pub open spec fn value_at(table: Seq<NamedValue>, t: Seq<char>, pos: int) -> Result<
    (Value, int),
    ParseErr,
> {
    if !starts_name(t, pos) {
        Err(ParseErr::Unexpected { at: pos as usize })
    } else {
        let end = text::run_end(t, pos, CharClass::Word);
        match value_named(table, t.subrange(pos, end)) {
            Some(value) => Ok((value, end)),
            None => Err(ParseErr::UnknownValue { at: pos as usize }),
        }
    }
}

/// The parameter at `pos`, and where it ends.
pub open spec fn param_at(
    table: Seq<NamedValue>,
    syntax: Syntax,
    t: Seq<char>,
    pos: int,
) -> Result<(SliceParam, int), ParseErr> {
    if !syntax.constants || starts_name(t, pos) {
        match value_at(table, t, pos) {
            Ok((value, end)) => Ok((SliceParam::Dynamic(value), end)),
            Err(error) => Err(error),
        }
    } else {
        match tokens::number_at(t, pos, usize::MAX as nat) {
            Ok((n, end)) => Ok((SliceParam::Static(n as usize), end)),
            Err(error) => Err(error),
        }
    }
}

/// A parameter ends behind where it begins.
pub proof fn lemma_param_end(table: Seq<NamedValue>, syntax: Syntax, t: Seq<char>, pos: int)
    requires
        0 <= pos <= t.len(),
    ensures
        param_at(table, syntax, t, pos) matches Ok((_, end)) ==> pos < end <= t.len(),
{
    tokens::lemma_number_end(t, pos);
    text::lemma_run_end(t, pos, CharClass::Word);
}

/// One or more parameters at `pos` with commas between them, and where they and the white
/// space behind them end.
pub open spec fn some_params_at(
    table: Seq<NamedValue>,
    syntax: Syntax,
    t: Seq<char>,
    pos: int,
) -> Result<(Seq<SliceParam>, int), ParseErr>
    decreases t.len() - pos,
    when 0 <= pos <= t.len()
{
    match param_at(table, syntax, t, pos) {
        Err(error) => Err(error),
        Ok((param, end)) => {
            proof {
                lemma_param_end(table, syntax, t, pos);
                tokens::lemma_spaces_end(t, end);
                let next = text::spaces_end(t, end);
                if next < t.len() {
                    tokens::lemma_spaces_end(t, next + 1);
                }
            }
            let next = text::spaces_end(t, end);
            if next < t.len() && t[next] == ',' {
                match some_params_at(table, syntax, t, text::spaces_end(t, next + 1)) {
                    Err(error) => Err(error),
                    Ok((rest, stop)) => Ok((seq![param] + rest, stop)),
                }
            } else {
                Ok((seq![param], next))
            }
        },
    }
}

/// A parameter begins here.
pub open spec fn starts_param(syntax: Syntax, t: Seq<char>, pos: int) -> bool {
    starts_name(t, pos) || (syntax.constants && pos < t.len() && (tokens::is_sign(t[pos])
        || text::is_digit(t[pos])))
}

/// The list at `pos`, and where it ends.
pub open spec fn list_at(table: Seq<NamedValue>, syntax: Syntax, t: Seq<char>, pos: int) -> Result<
    (Seq<SliceParam>, int),
    ParseErr,
> {
    match tokens::token_at(t, pos, open_text(syntax)) {
        Err(error) => Err(error),
        Ok(inner) => {
            let first = text::spaces_end(t, inner);
            let items = if starts_param(syntax, t, first) {
                some_params_at(table, syntax, t, first)
            } else {
                Ok::<(Seq<SliceParam>, int), ParseErr>((Seq::empty(), first))
            };
            match items {
                Err(error) => Err(error),
                Ok((list, stop)) => match tokens::token_at(t, stop, close_text(syntax)) {
                    Err(error) => Err(error),
                    Ok(end) => Ok((list, end)),
                },
            }
        },
    }
}

/// `n` lists at `pos` with white space between them, and where they end.
pub open spec fn lists_at(
    table: Seq<NamedValue>,
    syntax: Syntax,
    t: Seq<char>,
    pos: int,
    n: nat,
) -> Result<(Seq<Seq<SliceParam>>, int), ParseErr>
    decreases n,
{
    if n == 0 {
        Ok((Seq::empty(), pos))
    } else {
        match list_at(table, syntax, t, text::spaces_end(t, pos)) {
            Err(error) => Err(error),
            Ok((first, end)) => match lists_at(table, syntax, t, end, (n - 1) as nat) {
                Err(error) => Err(error),
                Ok((rest, stop)) => Ok((seq![first] + rest, stop)),
            },
        }
    }
}

/// The operands at `pos`, and where they end.
pub open spec fn operands_at(
    table: Seq<NamedValue>,
    syntax: Syntax,
    t: Seq<char>,
    pos: int,
) -> Result<(Seq<Value>, int), ParseErr> {
    match value_at(table, t, pos) {
        Err(error) => Err(error),
        Ok((first, end)) => match syntax.keyword {
            None => Ok((seq![first], end)),
            Some(keyword) => match tokens::spaced_at(t, end, keyword_text(keyword)) {
                Err(error) => Err(error),
                Ok(next) => match value_at(table, t, next) {
                    Err(error) => Err(error),
                    Ok((second, stop)) => Ok((seq![first, second], stop)),
                },
            },
        },
    }
}

/// The operands and lists at `pos`, and where what comes behind them begins.
pub open spec fn body_at(table: Seq<NamedValue>, syntax: Syntax, t: Seq<char>, pos: int) -> Result<
    (BodyView, int),
    ParseErr,
> {
    match operands_at(table, syntax, t, pos) {
        Err(error) => Err(error),
        Ok((operands, after)) => match lists_at(table, syntax, t, after, syntax.lists as nat) {
            Err(error) => Err(error),
            Ok((lists, stop)) => if syntax.typed {
                match tokens::spaced_at(t, stop, ":"@) {
                    Err(error) => Err(error),
                    Ok(end) => Ok((BodyView { operands, lists }, end)),
                }
            } else {
                Ok((BodyView { operands, lists }, stop))
            },
        },
    }
}

fn parse_value(table: &Vec<NamedValue>, t: &[char], pos: usize) -> (r: Result<
    (Value, usize),
    ParseErr,
>)
    requires
        pos <= t@.len(),
    ensures
        match r {
            Ok((value, end)) => value_at(table@, t@, pos as int) == Ok::<(Value, int), ParseErr>(
                (value, end as int),
            ) && pos < end <= t@.len(),
            Err(error) => value_at(table@, t@, pos as int) == Err::<(Value, int), ParseErr>(error),
        },
{
    if !name_starts(t, pos) {
        return Err(ParseErr::Unexpected { at: pos });
    }
    let end: usize = text::find_run_end(t, pos, CharClass::Word);
    let name: &[char] = vstd::slice::slice_subrange(t, pos, end);
    match find_value(table, name) {
        Some(value) => Ok((value, end)),
        None => Err(ParseErr::UnknownValue { at: pos }),
    }
}

fn name_starts(t: &[char], pos: usize) -> (r: bool)
    requires
        pos <= t@.len(),
    ensures
        r == starts_name(t@, pos as int),
        r ==> pos < text::run_end(t@, pos as int, CharClass::Word),
{
    if pos >= t.len() {
        return false;
    }
    let r: bool = text::belongs(CharClass::Word, t[pos]) && !text::belongs(
        CharClass::Digit,
        t[pos],
    );
    proof {
        text::lemma_run_end(t@, pos as int, CharClass::Word);
    }
    r
}

fn parse_param(table: &Vec<NamedValue>, syntax: Syntax, t: &[char], pos: usize) -> (r: Result<
    (SliceParam, usize),
    ParseErr,
>)
    requires
        pos <= t@.len(),
    ensures
        match r {
            Ok((param, end)) => param_at(table@, syntax, t@, pos as int) == Ok::<
                (SliceParam, int),
                ParseErr,
            >((param, end as int)) && pos < end <= t@.len(),
            Err(error) => param_at(table@, syntax, t@, pos as int) == Err::<
                (SliceParam, int),
                ParseErr,
            >(error),
        },
{
    if !syntax.constants || name_starts(t, pos) {
        match parse_value(table, t, pos) {
            Ok((value, end)) => Ok((SliceParam::Dynamic(value), end)),
            Err(error) => Err(error),
        }
    } else {
        match tokens::parse_number(t, pos, usize::MAX) {
            Ok((n, end)) => Ok((SliceParam::Static(n), end)),
            Err(error) => Err(error),
        }
    }
}

/// Parameters in front of what a list of them gives.
pub open spec fn with_params(
    front: Seq<SliceParam>,
    tail: Result<(Seq<SliceParam>, int), ParseErr>,
) -> Result<(Seq<SliceParam>, int), ParseErr> {
    match tail {
        Err(error) => Err(error),
        Ok((rest, stop)) => Ok((front + rest, stop)),
    }
}

fn parse_some_params(table: &Vec<NamedValue>, syntax: Syntax, t: &[char], pos: usize) -> (r: Result<
    (Vec<SliceParam>, usize),
    ParseErr,
>)
    requires
        pos <= t@.len(),
    ensures
        match r {
            Ok((list, end)) => some_params_at(table@, syntax, t@, pos as int) == Ok::<
                (Seq<SliceParam>, int),
                ParseErr,
            >((list@, end as int)) && pos <= end <= t@.len(),
            Err(error) => some_params_at(table@, syntax, t@, pos as int) == Err::<
                (Seq<SliceParam>, int),
                ParseErr,
            >(error),
        },
{
    let len: usize = t.len();
    let mut list: Vec<SliceParam> = Vec::new();
    let mut i: usize = pos;
    proof {
        if let Ok((rest, _)) = some_params_at(table@, syntax, t@, pos as int) {
            assert(Seq::<SliceParam>::empty() + rest =~= rest);
        }
    }
    loop
        invariant
            pos <= i <= len == t@.len(),
            some_params_at(table@, syntax, t@, pos as int) == with_params(
                list@,
                some_params_at(table@, syntax, t@, i as int),
            ),
        decreases len - i,
    {
        let ghost before = list@;
        let (param, end) = match parse_param(table, syntax, t, i) {
            Ok(parsed) => parsed,
            Err(error) => {
                return Err(error);
            },
        };
        list.push(param);
        let next: usize = tokens::skip_spaces(t, end);
        if next < len && t[next] == ',' {
            i = tokens::skip_spaces(t, next + 1);
            proof {
                if let Ok((rest, _)) = some_params_at(table@, syntax, t@, i as int) {
                    assert(before + (seq![param] + rest) =~= list@ + rest);
                }
            }
        } else {
            assert(before + seq![param] =~= list@);
            return Ok((list, next));
        }
    }
}

fn parse_list(table: &Vec<NamedValue>, syntax: Syntax, t: &[char], pos: usize) -> (r: Result<
    (Vec<SliceParam>, usize),
    ParseErr,
>)
    requires
        pos <= t@.len(),
    ensures
        match r {
            Ok((list, end)) => list_at(table@, syntax, t@, pos as int) == Ok::<
                (Seq<SliceParam>, int),
                ParseErr,
            >((list@, end as int)) && pos <= end <= t@.len(),
            Err(error) => list_at(table@, syntax, t@, pos as int) == Err::<
                (Seq<SliceParam>, int),
                ParseErr,
            >(error),
        },
{
    let (open, close): (&str, &str) = if syntax.round {
        ("(", ")")
    } else {
        ("[", "]")
    };
    let inner: usize = match tokens::parse_token(t, pos, open) {
        Ok(inner) => inner,
        Err(error) => {
            return Err(error);
        },
    };
    let first: usize = tokens::skip_spaces(t, inner);
    let starts: bool = name_starts(t, first) || (syntax.constants && first < t.len() && (t[first]
        == '+' || t[first] == '-' || text::belongs(CharClass::Digit, t[first])));
    let (list, stop): (Vec<SliceParam>, usize) = if starts {
        match parse_some_params(table, syntax, t, first) {
            Ok(parsed) => parsed,
            Err(error) => {
                return Err(error);
            },
        }
    } else {
        let empty: Vec<SliceParam> = Vec::new();
        assert(empty@ =~= Seq::<SliceParam>::empty());
        (empty, first)
    };
    match tokens::parse_token(t, stop, close) {
        Ok(end) => Ok((list, end)),
        Err(error) => Err(error),
    }
}

/// Lists in front of what further lists give.
pub open spec fn with_lists(
    front: Seq<Seq<SliceParam>>,
    tail: Result<(Seq<Seq<SliceParam>>, int), ParseErr>,
) -> Result<(Seq<Seq<SliceParam>>, int), ParseErr> {
    match tail {
        Err(error) => Err(error),
        Ok((rest, stop)) => Ok((front + rest, stop)),
    }
}

spec fn list_views(lists: Seq<Vec<SliceParam>>) -> Seq<Seq<SliceParam>> {
    Seq::new(lists.len(), |i: int| lists[i]@)
}

fn parse_lists(table: &Vec<NamedValue>, syntax: Syntax, t: &[char], pos: usize) -> (r: Result<
    (Vec<Vec<SliceParam>>, usize),
    ParseErr,
>)
    requires
        pos <= t@.len(),
    ensures
        match r {
            Ok((lists, end)) => lists_at(table@, syntax, t@, pos as int, syntax.lists as nat)
                == Ok::<(Seq<Seq<SliceParam>>, int), ParseErr>((list_views(lists@), end as int))
                && pos <= end <= t@.len(),
            Err(error) => lists_at(table@, syntax, t@, pos as int, syntax.lists as nat) == Err::<
                (Seq<Seq<SliceParam>>, int),
                ParseErr,
            >(error),
        },
{
    let n: usize = syntax.lists;
    let mut lists: Vec<Vec<SliceParam>> = Vec::new();
    let mut i: usize = pos;
    let mut k: usize = 0;
    proof {
        assert(list_views(lists@) =~= Seq::<Seq<SliceParam>>::empty());
        if let Ok((rest, _)) = lists_at(table@, syntax, t@, pos as int, n as nat) {
            assert(Seq::<Seq<SliceParam>>::empty() + rest =~= rest);
        }
    }
    while k < n
        invariant
            k <= n == syntax.lists,
            pos <= i <= t@.len(),
            lists_at(table@, syntax, t@, pos as int, n as nat) == with_lists(
                list_views(lists@),
                lists_at(table@, syntax, t@, i as int, (n - k) as nat),
            ),
        decreases n - k,
    {
        let ghost before = list_views(lists@);
        let (list, end) = match parse_list(table, syntax, t, tokens::skip_spaces(t, i)) {
            Ok(parsed) => parsed,
            Err(error) => {
                return Err(error);
            },
        };
        let ghost first = list@;
        lists.push(list);
        i = end;
        k += 1;
        proof {
            assert(list_views(lists@) =~= before.push(first));
            if let Ok((rest, _)) = lists_at(table@, syntax, t@, i as int, (n - k) as nat) {
                assert(before + (seq![first] + rest) =~= list_views(lists@) + rest);
            }
        }
    }
    assert(list_views(lists@) + Seq::<Seq<SliceParam>>::empty() =~= list_views(lists@));
    Ok((lists, i))
}

fn parse_operands(table: &Vec<NamedValue>, syntax: Syntax, t: &[char], pos: usize) -> (r: Result<
    (Vec<Value>, usize),
    ParseErr,
>)
    requires
        pos <= t@.len(),
    ensures
        match r {
            Ok((operands, end)) => operands_at(table@, syntax, t@, pos as int) == Ok::<
                (Seq<Value>, int),
                ParseErr,
            >((operands@, end as int)) && pos <= end <= t@.len(),
            Err(error) => operands_at(table@, syntax, t@, pos as int) == Err::<
                (Seq<Value>, int),
                ParseErr,
            >(error),
        },
{
    let (first, end) = match parse_value(table, t, pos) {
        Ok(parsed) => parsed,
        Err(error) => {
            return Err(error);
        },
    };
    let keyword: Keyword = match syntax.keyword {
        Some(keyword) => keyword,
        None => {
            let operands: Vec<Value> = vec![first];
            assert(operands@ =~= seq![first]);
            return Ok((operands, end));
        },
    };
    let word: &str = match keyword {
        Keyword::To => "to",
        Keyword::Into => "into",
    };
    let next: usize = match tokens::parse_spaced(t, end, word) {
        Ok(next) => next,
        Err(error) => {
            return Err(error);
        },
    };
    match parse_value(table, t, next) {
        Ok((second, stop)) => {
            let operands: Vec<Value> = vec![first, second];
            assert(operands@ =~= seq![first, second]);
            Ok((operands, stop))
        },
        Err(error) => Err(error),
    }
}

proof fn lemma_some_params_shape(
    table: Seq<NamedValue>,
    syntax: Syntax,
    t: Seq<char>,
    pos: int,
)
    requires
        0 <= pos <= t.len(),
    ensures
        some_params_at(table, syntax, t, pos) matches Ok((list, stop)) ==> pos <= stop <= t.len()
            && list.len() <= stop - pos && (!syntax.constants ==> all_values(list)),
    decreases t.len() - pos,
{
    if let Ok((param, end)) = param_at(table, syntax, t, pos) {
        lemma_param_end(table, syntax, t, pos);
        tokens::lemma_spaces_end(t, end);
        let next = text::spaces_end(t, end);
        if next < t.len() && t[next] == ',' {
            tokens::lemma_spaces_end(t, next + 1);
            lemma_some_params_shape(table, syntax, t, text::spaces_end(t, next + 1));
        }
    }
}

proof fn lemma_lists_shape(
    table: Seq<NamedValue>,
    syntax: Syntax,
    t: Seq<char>,
    pos: int,
    n: nat,
)
    requires
        0 <= pos <= t.len(),
    ensures
        lists_at(table, syntax, t, pos, n) matches Ok((lists, stop)) ==> lists.len() == n && pos
            <= stop <= t.len() && forall|i: int|
            0 <= i < lists.len() ==> (#[trigger] lists[i]).len() <= t.len() && (!syntax.constants
                ==> all_values(lists[i])),
    decreases n,
{
    if n > 0 {
        reveal_strlit("[");
        reveal_strlit("(");
        reveal_strlit("]");
        reveal_strlit(")");
        tokens::lemma_spaces_end(t, pos);
        let start = text::spaces_end(t, pos);
        if let Ok((first, end)) = list_at(table, syntax, t, start) {
            tokens::lemma_spaces_end(t, start + 1);
            lemma_some_params_shape(table, syntax, t, text::spaces_end(t, start + 1));
            lemma_lists_shape(table, syntax, t, end, (n - 1) as nat);
            if let Ok((rest, _)) = lists_at(table, syntax, t, end, (n - 1) as nat) {
                let lists = seq![first] + rest;
                assert forall|i: int| 0 <= i < lists.len() implies (#[trigger] lists[i]).len()
                    <= t.len() && (!syntax.constants ==> all_values(lists[i])) by {
                    if i > 0 {
                        assert(lists[i] == rest[i - 1]);
                    }
                }
            }
        }
    }
}

/// What is read has as many operands and lists as the syntax has, and its lists are no longer
/// than the text.
pub proof fn law_body_shape(table: Seq<NamedValue>, syntax: Syntax, t: Seq<char>, pos: int)
    requires
        0 <= pos <= t.len(),
    ensures
        body_at(table, syntax, t, pos) matches Ok((body, _)) ==> body_shape(syntax, body)
            && lists_within(body, t.len()),
{
    text::lemma_run_end(t, pos, CharClass::Word);
    if let Ok((first, end)) = value_at(table, t, pos) {
        if let Some(keyword) = syntax.keyword {
            reveal_strlit("to");
            reveal_strlit("into");
            tokens::lemma_spaces_end(t, end);
            let word = text::spaces_end(t, end) + keyword_text(keyword).len();
            if let Ok(next) = tokens::spaced_at(t, end, keyword_text(keyword)) {
                tokens::lemma_spaces_end(t, word);
                text::lemma_run_end(t, next, CharClass::Word);
            }
        }
    }
    if let Ok((_, after)) = operands_at(table, syntax, t, pos) {
        lemma_lists_shape(table, syntax, t, after, syntax.lists as nat);
    }
}

/// The operands and lists at `pos`, and where what comes behind them begins, if all values have
/// names.
pub fn parse_known_body(table: &Vec<NamedValue>, syntax: Syntax, t: &[char], pos: usize) -> (r: Result<
    (Body, usize),
    ParseErr,
>)
    requires
        pos <= t@.len(),
    ensures
        match r {
            Ok((body, end)) => body_at(table@, syntax, t@, pos as int) == Ok::<
                (BodyView, int),
                ParseErr,
            >((body@, end as int)) && pos <= end <= t@.len() && body_shape(syntax, body@)
                && lists_within(body@, t@.len()),
            Err(error) => body_at(table@, syntax, t@, pos as int) == Err::<
                (BodyView, int),
                ParseErr,
            >(error),
        },
{
    proof {
        law_body_shape(table@, syntax, t@, pos as int);
    }
    let (operands, after) = match parse_operands(table, syntax, t, pos) {
        Ok(parsed) => parsed,
        Err(error) => {
            return Err(error);
        },
    };
    let (lists, stop) = match parse_lists(table, syntax, t, after) {
        Ok(parsed) => parsed,
        Err(error) => {
            return Err(error);
        },
    };
    let body = Body { operands, lists };
    assert(body@.lists =~= list_views(lists@));
    if !syntax.typed {
        return Ok((body, stop));
    }
    match tokens::parse_spaced(t, stop, ":") {
        Ok(end) => Ok((body, end)),
        Err(error) => Err(error),
    }
}

// Reading what was written
/// A name is read as the value that it names.
proof fn lemma_value(table: Seq<NamedValue>, t: Seq<char>, pos: int, value: Value)
    requires
        names_wf(table),
        is_named(table, value),
        text::occurs_at(t, pos, name_of(table, value)),
        ({
            let end = pos + name_of(table, value).len();
            end < t.len() ==> !text::in_class(CharClass::Word, t[end])
        }),
    ensures
        value_at(table, t, pos) == Ok::<(Value, int), ParseErr>(
            (value, pos + name_of(table, value).len()),
        ),
        starts_name(t, pos),
        !text::is_space(t[pos]),
{
    let name = name_of(table, value);
    let end = pos + name.len();
    law_value_of_name(table, value);
    assert forall|i: int| pos <= i < end implies text::in_class(CharClass::Word, #[trigger] t[i]) by {
        assert(t[pos + (i - pos)] == name[i - pos]);
    }
    text::lemma_run_ends_at(t, pos, end, CharClass::Word);
    assert(t[pos + 0] == name[0]);
    assert(text::in_class(CharClass::Word, name[0]));
    assert forall|i: int| 0 <= i < name.len() implies t.subrange(pos, end)[i] == name[i] by {
        assert(t[pos + i] == name[i]);
    }
    assert(t.subrange(pos, end) =~= name);
}

/// A parameter is read as it is written.
proof fn lemma_param(
    table: Seq<NamedValue>,
    syntax: Syntax,
    t: Seq<char>,
    pos: int,
    param: SliceParam,
)
    requires
        names_wf(table),
        param_fits(table, syntax, param),
        text::occurs_at(t, pos, param_text(table, param)),
        ({
            let end = pos + param_text(table, param).len();
            end < t.len() ==> !text::in_class(CharClass::Word, t[end])
        }),
    ensures
        param_at(table, syntax, t, pos) == Ok::<(SliceParam, int), ParseErr>(
            (param, pos + param_text(table, param).len()),
        ),
        starts_param(syntax, t, pos),
        !text::is_space(t[pos]),
{
    match param {
        SliceParam::Static(n) => {
            tokens::lemma_number(t, pos, n as nat, usize::MAX as nat);
        },
        SliceParam::Dynamic(value) => {
            lemma_value(table, t, pos, value);
        },
    }
}

/// Parameters are read as they are written.
proof fn lemma_some_params(
    table: Seq<NamedValue>,
    syntax: Syntax,
    t: Seq<char>,
    pos: int,
    list: Seq<SliceParam>,
)
    requires
        names_wf(table),
        list_fits(table, syntax, list),
        list.len() > 0,
        text::occurs_at(
            t,
            pos,
            text::joined(param_texts(table, list), ", "@) + close_text(syntax),
        ),
    ensures
        some_params_at(table, syntax, t, pos) == Ok::<(Seq<SliceParam>, int), ParseErr>(
            (list, pos + text::joined(param_texts(table, list), ", "@).len()),
        ),
        starts_param(syntax, t, pos),
        !text::is_space(t[pos]),
    decreases list.len(),
{
    reveal_strlit(", ");
    reveal_strlit("]");
    reveal_strlit(")");
    let close = close_text(syntax);
    let pieces = param_texts(table, list);
    let all = text::joined(pieces, ", "@);
    let first = param_text(table, list[0]);
    let rest_list = list.skip(1);
    let rest_pieces = param_texts(table, rest_list);
    assert(pieces.skip(1) =~= rest_pieces);
    let rest = if list.len() == 1 {
        close
    } else {
        ", "@ + (text::joined(rest_pieces, ", "@) + close)
    };
    assert(all + close =~= first + rest);
    text::lemma_occurs_split(t, pos, first, rest);
    let end = pos + first.len();
    assert(t[end + 0] == rest[0]);
    assert(param_fits(table, syntax, list[0]));
    lemma_param(table, syntax, t, pos, list[0]);
    tokens::lemma_spaces(t, end, end);
    if list.len() == 1 {
        assert(seq![list[0]] =~= list);
    } else {
        assert(t[end + 1] == rest[1]);
        text::lemma_occurs_split(t, end, ", "@, text::joined(rest_pieces, ", "@) + close);
        assert forall|i: int| 0 <= i < rest_list.len() implies param_fits(
            table,
            syntax,
            #[trigger] rest_list[i],
        ) by {
            assert(param_fits(table, syntax, list[i + 1]));
        }
        lemma_some_params(table, syntax, t, end + 2, rest_list);
        tokens::lemma_spaces(t, end + 1, end + 2);
        assert(seq![list[0]] + rest_list =~= list);
        assert(all.len() == first.len() + 2 + text::joined(rest_pieces, ", "@).len());
    }
}

/// A list is read as it is written.
proof fn lemma_list(
    table: Seq<NamedValue>,
    syntax: Syntax,
    t: Seq<char>,
    pos: int,
    list: Seq<SliceParam>,
)
    requires
        names_wf(table),
        list_fits(table, syntax, list),
        text::occurs_at(t, pos, list_text(table, syntax, list)),
    ensures
        list_at(table, syntax, t, pos) == Ok::<(Seq<SliceParam>, int), ParseErr>(
            (list, pos + list_text(table, syntax, list).len()),
        ),
        !text::is_space(t[pos]),
        !text::in_class(CharClass::Word, t[pos]),
{
    reveal_strlit("[");
    reveal_strlit("(");
    reveal_strlit("]");
    reveal_strlit(")");
    let open = open_text(syntax);
    let close = close_text(syntax);
    let all = text::joined(param_texts(table, list), ", "@);
    assert(list_text(table, syntax, list) =~= open + (all + close));
    text::lemma_occurs_split(t, pos, open, all + close);
    text::lemma_occurs_split(t, pos + 1, all, close);
    assert(t[pos + 0] == open[0]);
    if list.len() == 0 {
        assert(param_texts(table, list) =~= Seq::<Seq<char>>::empty());
        assert(all =~= Seq::<char>::empty());
        assert(t[pos + 1 + 0] == close[0]);
        tokens::lemma_spaces(t, pos + 1, pos + 1);
        assert(list =~= Seq::<SliceParam>::empty());
    } else {
        lemma_some_params(table, syntax, t, pos + 1, list);
        tokens::lemma_spaces(t, pos + 1, pos + 1);
    }
}

/// Lists are read as they are written.
proof fn lemma_lists(
    table: Seq<NamedValue>,
    syntax: Syntax,
    t: Seq<char>,
    pos: int,
    lists: Seq<Seq<SliceParam>>,
)
    requires
        names_wf(table),
        forall|i: int| 0 <= i < lists.len() ==> list_fits(table, syntax, #[trigger] lists[i]),
        text::occurs_at(t, pos, lists_text(table, syntax, lists)),
    ensures
        lists_at(table, syntax, t, pos, lists.len()) == Ok::<
            (Seq<Seq<SliceParam>>, int),
            ParseErr,
        >((lists, pos + lists_text(table, syntax, lists).len())),
        lists.len() > 0 ==> !text::in_class(CharClass::Word, t[pos]),
    decreases lists.len(),
{
    reveal_strlit(" ");
    if lists.len() == 0 {
        assert(lists =~= Seq::<Seq<SliceParam>>::empty());
    } else {
        let gap = if syntax.apart {
            " "@
        } else {
            Seq::empty()
        };
        let first = list_text(table, syntax, lists[0]);
        let rest = lists_text(table, syntax, lists.skip(1));
        assert(lists_text(table, syntax, lists) =~= gap + (first + rest));
        text::lemma_occurs_split(t, pos, gap, first + rest);
        let start = pos + gap.len();
        text::lemma_occurs_split(t, start, first, rest);
        assert(list_fits(table, syntax, lists[0]));
        lemma_list(table, syntax, t, start, lists[0]);
        if syntax.apart {
            assert(t[pos + 0] == ' ');
        }
        tokens::lemma_spaces(t, pos, start);
        assert forall|i: int| 0 <= i < lists.skip(1).len() implies list_fits(
            table,
            syntax,
            #[trigger] lists.skip(1)[i],
        ) by {
            assert(list_fits(table, syntax, lists[i + 1]));
        }
        lemma_lists(table, syntax, t, start + first.len(), lists.skip(1));
        assert(seq![lists[0]] + lists.skip(1) =~= lists);
    }
}

/// Operands are read as they are written.
proof fn lemma_operands(
    table: Seq<NamedValue>,
    syntax: Syntax,
    t: Seq<char>,
    pos: int,
    operands: Seq<Value>,
)
    requires
        names_wf(table),
        operands.len() == if syntax.keyword is Some {
            2int
        } else {
            1
        },
        forall|i: int| 0 <= i < operands.len() ==> is_named(table, #[trigger] operands[i]),
        text::occurs_at(t, pos, operands_text(table, syntax, operands)),
        ({
            let end = pos + operands_text(table, syntax, operands).len();
            end < t.len() ==> !text::in_class(CharClass::Word, t[end])
        }),
    ensures
        operands_at(table, syntax, t, pos) == Ok::<(Seq<Value>, int), ParseErr>(
            (operands, pos + operands_text(table, syntax, operands).len()),
        ),
{
    reveal_strlit(" ");
    reveal_strlit("to");
    reveal_strlit("into");
    let first = name_of(table, operands[0]);
    assert(is_named(table, operands[0]));
    match syntax.keyword {
        None => {
            lemma_value(table, t, pos, operands[0]);
            assert(seq![operands[0]] =~= operands);
        },
        Some(keyword) => {
            let word = keyword_text(keyword);
            let second = name_of(table, operands[1]);
            assert(is_named(table, operands[1]));
            assert(operands_text(table, syntax, operands) =~= first + (" "@ + (word + (" "@
                + second))));
            text::lemma_occurs_split(t, pos, first, " "@ + (word + (" "@ + second)));
            let end = pos + first.len();
            text::lemma_occurs_split(t, end, " "@, word + (" "@ + second));
            text::lemma_occurs_split(t, end + 1, word, " "@ + second);
            let gap = end + 1 + word.len();
            text::lemma_occurs_split(t, gap, " "@, second);
            assert(t[end + 0] == ' ');
            assert(t[gap + 0] == ' ');
            lemma_value(table, t, pos, operands[0]);
            lemma_value(table, t, gap + 1, operands[1]);
            tokens::lemma_spaced(t, end, end + 1, word, gap + 1);
            assert(seq![operands[0], operands[1]] =~= operands);
        },
    }
}

/// An operation that is written out and read again has the same operands and lists. It holds
/// whatever surrounds the text, if the type behind a colon does not begin with white space.
pub proof fn law_body_round_trip(
    table: Seq<NamedValue>,
    syntax: Syntax,
    t: Seq<char>,
    pos: int,
    body: BodyView,
)
    requires
        names_wf(table),
        body_fits(table, syntax, body),
        syntax.lists > 0,
        text::occurs_at(t, pos, body_text(table, syntax, body)),
        ({
            let end = pos + body_text(table, syntax, body).len();
            syntax.typed && end < t.len() ==> !text::is_space(t[end])
        }),
    ensures
        body_at(table, syntax, t, pos) == Ok::<(BodyView, int), ParseErr>(
            (body, pos + body_text(table, syntax, body).len()),
        ),
{
    reveal_strlit(" : ");
    reveal_strlit(":");
    let operands = operands_text(table, syntax, body.operands);
    let lists = lists_text(table, syntax, body.lists);
    let tail = if syntax.typed {
        " : "@
    } else {
        Seq::empty()
    };
    assert(body_text(table, syntax, body) =~= operands + (lists + tail));
    text::lemma_occurs_split(t, pos, operands, lists + tail);
    let after = pos + operands.len();
    text::lemma_occurs_split(t, after, lists, tail);
    let stop = after + lists.len();
    lemma_lists(table, syntax, t, after, body.lists);
    lemma_operands(table, syntax, t, pos, body.operands);
    if syntax.typed {
        assert(t[stop + 0] == ' ');
        assert(t[stop + 1] == ':');
        assert(t[stop + 2] == ' ');
        assert(text::occurs_at(t, stop + 1, ":"@)) by {
            assert forall|i: int| 0 <= i < ":"@.len() implies #[trigger] t[stop + 1 + i]
                == ":"@[i] by {}
        }
        tokens::lemma_spaced(t, stop, stop + 1, ":"@, stop + 3);
    }
}

// Operations
/// An operation that is written as operands, lists and a type.
pub trait TextOp: Sized {
    /// How the operation is written.
    spec fn form() -> Syntax;

    /// The operands and parameters are there.
    spec fn has_body(&self) -> bool;

    /// What is written of the operation.
    spec fn body_view(&self) -> BodyView;

    /// The types of the results.
    spec fn result_view(&self) -> Seq<TypeHandle>;

    /// How the operation is written.
    fn syntax() -> (r: Syntax)
        ensures
            r == Self::form(),
    ;

    /// Whether the operands and parameters are there.
    fn is_complete(&self) -> (r: bool)
        ensures
            r == self.has_body(),
    ;

    /// What is written of the operation.
    fn body(&self) -> (r: Body)
        requires
            self.has_body(),
        ensures
            r@ == self.body_view(),
            body_shape(Self::form(), r@),
    ;

    /// The operation with the given operands and lists. Its result, if it has one, is of the
    /// given type.
    fn from_body(body: &Body, result_type: TypeHandle) -> (r: Self)
        requires
            body_shape(Self::form(), body@),
            lists_within(body@, max_list()),
        ensures
            r.has_body(),
            r.body_view() == body@,
            r.result_view() == if Self::form().typed {
                seq![result_type]
            } else {
                Seq::empty()
            },
    ;
}

/// The text of an operation, from behind its name up to the type of its result.
pub fn print_op<T: TextOp>(op: &T, table: &Vec<NamedValue>) -> (r: Vec<char>)
    requires
        op.has_body(),
        body_fits(table@, T::form(), op.body_view()),
    ensures
        r@ == body_text(table@, T::form(), op.body_view()),
{
    print_body(table, T::syntax(), &op.body())
}

/// An operation that is written out, read, and built again is written out as it was.
pub proof fn law_op_round_trip<T: TextOp>(
    op: T,
    again: T,
    table: Seq<NamedValue>,
    t: Seq<char>,
    pos: int,
)
    requires
        names_wf(table),
        T::form().lists > 0,
        body_fits(table, T::form(), op.body_view()),
        text::occurs_at(t, pos, body_text(table, T::form(), op.body_view())),
        ({
            let end = pos + body_text(table, T::form(), op.body_view()).len();
            T::form().typed && end < t.len() ==> !text::is_space(t[end])
        }),
        body_at(table, T::form(), t, pos) matches Ok((body, _)) && again.body_view() == body,
    ensures
        again.body_view() == op.body_view(),
        body_text(table, T::form(), again.body_view()) == body_text(
            table,
            T::form(),
            op.body_view(),
        ),
{
    law_body_round_trip(table, T::form(), t, pos, op.body_view());
}

/// Each value, as a parameter.
pub open spec fn as_params(values: Seq<Value>) -> Seq<SliceParam> {
    Seq::new(values.len(), |i: int| SliceParam::Dynamic(values[i]))
}

/// The values of parameters that all are values.
pub open spec fn as_values(list: Seq<SliceParam>) -> Seq<Value> {
    Seq::new(list.len(), |i: int| list[i]->Dynamic_0)
}

/// Each value, as a parameter.
pub fn to_params(values: &Vec<Value>, start: usize) -> (r: Vec<SliceParam>)
    requires
        start <= values@.len(),
    ensures
        r@ == as_params(values@.skip(start as int)),
        all_values(r@),
{
    let mut params: Vec<SliceParam> = Vec::new();
    let mut i: usize = start;
    while i < values.len()
        invariant
            start <= i <= values@.len(),
            params@ == as_params(values@.skip(start as int)).take(i - start),
        decreases values@.len() - i,
    {
        params.push(SliceParam::Dynamic(values[i]));
        i += 1;
        assert(params@ =~= as_params(values@.skip(start as int)).take(i - start));
    }
    assert(params@ =~= as_params(values@.skip(start as int)));
    params
}

/// The values of parameters that all are values.
pub fn to_values(list: &Vec<SliceParam>) -> (r: Vec<Value>)
    requires
        all_values(list@),
    ensures
        r@ == as_values(list@),
        as_params(r@) == list@,
{
    let mut values: Vec<Value> = Vec::new();
    let mut i: usize = 0;
    while i < list.len()
        invariant
            i <= list@.len(),
            all_values(list@),
            values@ == as_values(list@).take(i as int),
        decreases list@.len() - i,
    {
        assert(list@[i as int] is Dynamic);
        if let SliceParam::Dynamic(value) = list[i] {
            values.push(value);
        }
        i += 1;
        assert(values@ =~= as_values(list@).take(i as int));
    }
    assert(values@ =~= as_values(list@));
    assert(as_params(values@) =~= list@) by {
        assert forall|k: int| 0 <= k < list@.len() implies as_params(values@)[k] == list@[k] by {
            assert(list@[k] is Dynamic);
        }
    }
    values
}

/// A copy of a list.
pub fn copy_params(list: &Vec<SliceParam>) -> (r: Vec<SliceParam>)
    ensures
        r@ == list@,
{
    let mut copy: Vec<SliceParam> = Vec::new();
    let mut i: usize = 0;
    while i < list.len()
        invariant
            i <= list@.len(),
            copy@ == list@.take(i as int),
        decreases list@.len() - i,
    {
        copy.push(list[i]);
        i += 1;
        assert(copy@ =~= list@.take(i as int));
    }
    assert(copy@ =~= list@);
    copy
}

} // verus!
