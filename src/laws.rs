//! Laws of the language: scoping, undefined names, assignment, and keyword
//! tolerance, stated over the specifications that the contracts use.
use vstd::prelude::*;
use crate::ast::AstView;
use crate::environment::{
    assign_in, define_in, find_frame, lemma_find_frame, lemma_find_frame_at, lookup,
};
use crate::executor::{
    bind, call_error, eval, is_expression, is_word, sem, sem_args, sem_block, Event,
};
use crate::config::{variable_symbol, Config};
use crate::parser::{p_factor, p_group, p_statement, p_term, p_unary};
use crate::token::TokenKind;
use crate::value::absent;
use crate::value::{ErrorView, ValueView};

verus! {

/// Reading a name that no frame binds, or calling it, fails: with no frames
/// at all as with frames that all lack it.
pub proof fn lemma_undefined_reference(
    frames: Seq<Map<Seq<char>, ValueView>>,
    name: Seq<char>,
    n_args: nat,
)
    requires
        forall|k: int| 0 <= k < frames.len() ==> !#[trigger] frames[k].contains_key(name),
    ensures
        lookup(frames, name) is None,
        eval(AstView::Identifier(name), frames) == Err::<ValueView, ErrorView>(
            ErrorView::UndefinedVariable(name),
        ),
        call_error(frames, name, n_args) == Some(ErrorView::UndefinedFunction(name)),
{
    lemma_find_frame(frames, name);
    if find_frame(frames, name) is Some {
        let j = find_frame(frames, name)->Some_0;
        assert(frames[j].contains_key(name));
    }
}

/// Assigning a name that no frame binds fails.
pub proof fn lemma_assign_undefined(
    frames: Seq<Map<Seq<char>, ValueView>>,
    name: Seq<char>,
    v: ValueView,
)
    requires
        forall|k: int| 0 <= k < frames.len() ==> !#[trigger] frames[k].contains_key(name),
    ensures
        assign_in(frames, name, v) is None,
{
    lemma_undefined_reference(frames, name, 0);
}

/// Assigning a name that an enclosing frame binds, and no frame inside it,
/// changes that frame's binding and adds none to the current frame.
pub proof fn lemma_assign_enclosing(
    frames: Seq<Map<Seq<char>, ValueView>>,
    name: Seq<char>,
    v: ValueView,
    j: int,
)
    requires
        0 <= j < frames.len() - 1,
        frames[j].contains_key(name),
        forall|k: int| j < k < frames.len() ==> !#[trigger] frames[k].contains_key(name),
    ensures
        assign_in(frames, name, v) == Some(frames.update(j, frames[j].insert(name, v))),
        assign_in(frames, name, v)->Some_0.last() == frames.last(),
        !assign_in(frames, name, v)->Some_0.last().contains_key(name),
        lookup(assign_in(frames, name, v)->Some_0, name) == Some(v),
{
    lemma_find_frame_at(frames, name, j);
    let f = frames.update(j, frames[j].insert(name, v));
    assert(!frames[frames.len() - 1].contains_key(name));
    assert forall|k: int| j < k < f.len() implies !#[trigger] f[k].contains_key(name) by {
        assert(f[k] == frames[k]);
    }
    lemma_find_frame_at(f, name, j);
}

/// A call's frame sees every binding of the frames where the call stands,
/// as they are when the call starts.
pub proof fn lemma_callee_sees_caller(frames: Seq<Map<Seq<char>, ValueView>>, name: Seq<char>)
    ensures
        lookup(frames.push(Map::empty()), name) == lookup(frames, name),
{
    let inner = frames.push(Map::empty());
    assert(inner.drop_last() =~= frames);
    assert(!inner.last().contains_key(name));
    assert(find_frame(inner, name) == find_frame(frames, name));
    lemma_find_frame(frames, name);
    if find_frame(frames, name) is Some {
        let j = find_frame(frames, name)->Some_0;
        assert(inner[j] == frames[j]);
    }
}

/// A definition made in a call's frame is gone once that frame is dropped:
/// the caller's frames are as they were.
pub proof fn lemma_callee_definition_dropped(
    frames: Seq<Map<Seq<char>, ValueView>>,
    name: Seq<char>,
    v: ValueView,
)
    ensures
        define_in(frames.push(Map::empty()), name, v).drop_last() == frames,
        define_in(frames.push(Map::empty()), name, v).subrange(0, frames.len() as int) == frames,
{
    assert(define_in(frames.push(Map::empty()), name, v).drop_last() =~= frames);
    assert(define_in(frames.push(Map::empty()), name, v).subrange(0, frames.len() as int)
        =~= frames);
}

/// An expression changes no frame, and its evaluation is what `eval` says.
pub proof fn lemma_sem_expression(
    e: AstView,
    frames: Seq<Map<Seq<char>, ValueView>>,
    fuel: nat,
    log: Seq<Event>,
    at: int,
)
    requires
        is_expression(e),
    ensures
        sem(e, frames, fuel, log, at) == match eval(e, frames) {
            Ok(v) => Some((Ok::<_, ErrorView>((v, frames)), at)),
            Err(x) => Some((Err(x), at)),
        },
    decreases e,
{
    match e {
        AstView::Term(l, _, r) => {
            lemma_sem_expression(*l, frames, fuel, log, at);
            lemma_sem_expression(*r, frames, fuel, log, at);
        },
        AstView::Unary(_, x) => {
            lemma_sem_expression(*x, frames, fuel, log, at);
        },
        _ => {},
    }
}

/// Inside a call's fresh frame an expression means what it means at the
/// call: names resolve in the caller's frames.
pub proof fn lemma_eval_in_callee(e: AstView, frames: Seq<Map<Seq<char>, ValueView>>)
    requires
        is_expression(e),
    ensures
        eval(e, frames.push(Map::empty())) == eval(e, frames),
    decreases e,
{
    match e {
        AstView::Term(l, _, r) => {
            lemma_eval_in_callee(*l, frames);
            lemma_eval_in_callee(*r, frames);
        },
        AstView::Unary(_, x) => {
            lemma_eval_in_callee(*x, frames);
        },
        AstView::Identifier(n) => {
            lemma_callee_sees_caller(frames, n);
        },
        _ => {},
    }
}

/// Calling a function whose body defines `x` from an expression: the value
/// is computed with the caller's bindings (scoping follows the call), and
/// once the call returns the caller's frames are exactly as before, so `x`
/// is not visible after it. (The definition is spelled with its sigil, so
/// the call raises no advisory and reads nothing of the host's record.)
pub proof fn lemma_call_scoping(
    frames: Seq<Map<Seq<char>, ValueView>>,
    function: Seq<char>,
    x: Seq<char>,
    e: AstView,
    keyword: crate::token::TokenKind,
    fuel: nat,
    log: Seq<Event>,
    at: int,
)
    requires
        fuel > 0,
        is_expression(e),
        !is_word(keyword, variable_symbol()),
        lookup(frames, function) == Some(
            ValueView::Function {
                params: Seq::empty(),
                body: AstView::Block(
                    seq![AstView::VariableDefinition { name: x, value: Box::new(e), keyword }],
                ),
            },
        ),
    ensures
        sem(AstView::FunctionCall { name: function, args: Seq::empty() }, frames, fuel, log, at)
            == match eval(e, frames) {
            Ok(_) => Some((Ok::<_, ErrorView>((absent(), frames)), at)),
            Err(err) => Some((Err(err), at)),
        },
{
    let inner = frames.push(Map::empty());
    let stmt = AstView::VariableDefinition { name: x, value: Box::new(e), keyword };
    let body = AstView::Block(seq![stmt]);
    assert(sem_args(Seq::empty(), 0, Seq::empty(), frames, fuel, log, at) == Some(
        (Ok::<_, ErrorView>((Seq::<ValueView>::empty(), frames)), at),
    ));
    assert(bind(inner, Seq::empty(), Seq::empty(), 0) == inner);
    lemma_eval_in_callee(e, frames);
    lemma_sem_expression(e, inner, (fuel - 1) as nat, log, at);
    assert(seq![stmt][0] == stmt);
    assert(seq![stmt].len() == 1);
    assert(sem(body, inner, (fuel - 1) as nat, log, at) == sem_block(
        seq![stmt],
        0,
        absent(),
        inner,
        (fuel - 1) as nat,
        log,
        at,
    ));
    match eval(e, frames) {
        Ok(v) => {
            let after = crate::environment::define_in(inner, x, v);
            assert(sem(stmt, inner, (fuel - 1) as nat, log, at) == Some(
                (Ok::<_, ErrorView>((absent(), after)), at),
            ));
            assert(sem_block(seq![stmt], 1, absent(), after, (fuel - 1) as nat, log, at) == Some(
                (Ok::<_, ErrorView>((absent(), after)), at),
            ));
            assert(sem(body, inner, (fuel - 1) as nat, log, at) == Some(
                (Ok::<_, ErrorView>((absent(), after)), at),
            ));
            lemma_callee_definition_dropped(frames, x, v);
        },
        Err(err) => {
            assert(sem(stmt, inner, (fuel - 1) as nat, log, at) == Some(
                (Err::<(ValueView, Seq<Map<Seq<char>, ValueView>>), ErrorView>(err), at),
            ));
            assert(sem(body, inner, (fuel - 1) as nat, log, at) == Some(
                (Err::<(ValueView, Seq<Map<Seq<char>, ValueView>>), ErrorView>(err), at),
            ));
        },
    }
}

} // verus!

verus! {

/// Whether two token sequences agree from position `j` on.
pub open spec fn agree_from(ts: Seq<TokenKind>, us: Seq<TokenKind>, j: int) -> bool {
    ts.len() == us.len() && forall|k: int| j <= k < ts.len() ==> #[trigger] ts[k] == us[k]
}

proof fn lemma_group_local(ts: Seq<TokenKind>, us: Seq<TokenKind>, j: int, pos: int)
    requires
        agree_from(ts, us, j),
        j <= pos,
    ensures
        p_group(ts, pos) == p_group(us, pos),
        p_group(ts, pos) is Ok ==> pos < p_group(ts, pos)->Ok_0.1,
    decreases ts.len() - pos, 0int,
{
    if 0 <= pos < ts.len() {
        assert(ts[pos] == us[pos]);
        lemma_term_local(ts, us, j, pos + 1);
        match p_term(ts, pos + 1) {
            Ok((_, p)) => {
                if 0 <= p < ts.len() && p >= j {
                    assert(ts[p] == us[p]);
                }
            },
            Err(_) => {},
        }
    }
}

proof fn lemma_unary_local(ts: Seq<TokenKind>, us: Seq<TokenKind>, j: int, pos: int)
    requires
        agree_from(ts, us, j),
        j <= pos,
    ensures
        p_unary(ts, pos) == p_unary(us, pos),
        p_unary(ts, pos) is Ok ==> pos < p_unary(ts, pos)->Ok_0.1,
    decreases ts.len() - pos, 1int,
{
    if 0 <= pos < ts.len() {
        assert(ts[pos] == us[pos]);
        lemma_group_local(ts, us, j, pos);
        lemma_unary_local(ts, us, j, pos + 1);
    }
}

proof fn lemma_factor_local(ts: Seq<TokenKind>, us: Seq<TokenKind>, j: int, pos: int)
    requires
        agree_from(ts, us, j),
        j <= pos,
    ensures
        p_factor(ts, pos) == p_factor(us, pos),
        p_factor(ts, pos) is Ok ==> pos < p_factor(ts, pos)->Ok_0.1,
    decreases ts.len() - pos, 2int,
{
    lemma_unary_local(ts, us, j, pos);
    match p_unary(ts, pos) {
        Ok((_, p)) => {
            if pos <= p < ts.len() {
                assert(ts[p] == us[p]);
                lemma_factor_local(ts, us, j, p + 1);
            }
        },
        Err(_) => {},
    }
}

proof fn lemma_term_local(ts: Seq<TokenKind>, us: Seq<TokenKind>, j: int, pos: int)
    requires
        agree_from(ts, us, j),
        j <= pos,
    ensures
        p_term(ts, pos) == p_term(us, pos),
        p_term(ts, pos) is Ok ==> pos < p_term(ts, pos)->Ok_0.1,
    decreases ts.len() - pos, 3int,
{
    lemma_factor_local(ts, us, j, pos);
    match p_factor(ts, pos) {
        Ok((_, p)) => {
            if pos <= p < ts.len() {
                assert(ts[p] == us[p]);
                lemma_term_local(ts, us, j, p + 1);
            }
        },
        Err(_) => {},
    }
}

/// A variable definition parses the same whichever variable keyword spells
/// it: replacing the keyword at `pos` by another word that is a variable
/// keyword and no function keyword changes only the keyword the tree
/// records, or gives the same error.
pub proof fn lemma_variable_keyword_tolerance(
    ts: Seq<TokenKind>,
    pos: int,
    cfg: Config,
    word: Seq<char>,
)
    requires
        0 <= pos,
        pos + 1 < ts.len(),
        ts[pos] is Identifier,
        ts[pos + 1] is Identifier,
        cfg.is_variable_keyword(ts[pos]->Identifier_0),
        !cfg.is_function_keyword(ts[pos]->Identifier_0),
        cfg.is_variable_keyword(word),
        !cfg.is_function_keyword(word),
    ensures
        ({
            let us = ts.update(pos, TokenKind::Identifier(word));
            match (p_statement(ts, pos, cfg), p_statement(us, pos, cfg)) {
                (Ok((a, p)), Ok((b, q))) => p == q && a is VariableDefinition && b is VariableDefinition
                    && a->VariableDefinition_name == b->VariableDefinition_name
                    && a->VariableDefinition_value == b->VariableDefinition_value
                    && a->VariableDefinition_keyword == ts[pos] && b->VariableDefinition_keyword
                    == TokenKind::Identifier(word),
                (Err(x), Err(y)) => x == y,
                _ => false,
            }
        }),
{
    let us = ts.update(pos, TokenKind::Identifier(word));
    assert(agree_from(ts, us, pos + 1));
    assert(us[pos + 1] == ts[pos + 1]);
    if pos + 2 < ts.len() {
        assert(us[pos + 2] == ts[pos + 2]);
    }
    lemma_term_local(ts, us, pos + 1, pos + 3);
}

} // verus!

verus! {

/// A variable definition evaluates the same whichever word spells it: with
/// the advisory for its own keyword recorded next, both give the same result
/// and frames and go on at the same place of the record.
pub proof fn lemma_definition_keyword_irrelevant(
    name: Seq<char>,
    value: AstView,
    first: TokenKind,
    second: TokenKind,
    frames: Seq<Map<Seq<char>, ValueView>>,
    fuel: nat,
    log: Seq<Event>,
    at: int,
)
    requires
        is_expression(value),
        is_word(first, variable_symbol()),
        is_word(second, variable_symbol()),
        0 <= at < log.len(),
    ensures
        sem(
            AstView::VariableDefinition { name, value: Box::new(value), keyword: first },
            frames,
            fuel,
            log.update(at, Event::Advisory(first)),
            at,
        ) == sem(
            AstView::VariableDefinition { name, value: Box::new(value), keyword: second },
            frames,
            fuel,
            log.update(at, Event::Advisory(second)),
            at,
        ),
        sem(
            AstView::VariableDefinition { name, value: Box::new(value), keyword: first },
            frames,
            fuel,
            log.update(at, Event::Advisory(first)),
            at,
        ) is Some,
{
    lemma_sem_expression(value, frames, fuel, log.update(at, Event::Advisory(first)), at + 1);
    lemma_sem_expression(value, frames, fuel, log.update(at, Event::Advisory(second)), at + 1);
}

} // verus!
