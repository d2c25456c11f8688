use crate::ast::AstModel;
use crate::compiler::OptionsModel;
use crate::ir::{InstrModel, ValueModel};
use crate::ir_parse::{
    block_name, follows, lambda_name, lemma_lower_appends, lemma_lower_args_appends,
    lemma_lower_items_appends, lower, lower_args, lower_items, lower_program, struct_type_name,
    take_block, take_lambda, take_local, take_type, LowerState,
};
use crate::text::{all_digits, decimal_nat, digit_char, digit_value, digits_value, is_decimal_digit};
use crate::types::TypeModel;
use vstd::multiset::Multiset;
use vstd::prelude::*;

verus! {

broadcast use vstd::multiset::group_multiset_axioms;

/// The decimal text of a number is made of digits, and of at least one.
pub proof fn lemma_decimal_is_digits(n: nat)
    ensures
        all_digits(decimal_nat(n)),
        decimal_nat(n).len() > 0,
    decreases n,
{
    if n >= 10 {
        lemma_decimal_is_digits(n / 10);
        let front = decimal_nat(n / 10);
        let text = front.push(digit_char(n % 10));
        assert forall|i: int| 0 <= i < text.len() implies is_decimal_digit(#[trigger] text[i]) by {
            if i < front.len() {
                assert(text[i] == front[i]);
            }
        }
    }
}

/// The decimal text of a number stands for that number, so different
/// numbers have different texts.
pub proof fn lemma_decimal_reads_back(n: nat)
    ensures
        digits_value(decimal_nat(n)) == n,
    decreases n,
{
    reveal_with_fuel(digits_value, 2);
    if n < 10 {
        let text = seq![digit_char(n)];
        assert(text.drop_last() =~= Seq::<char>::empty());
        assert(text.last() == digit_char(n));
    } else {
        lemma_decimal_reads_back(n / 10);
        let front = decimal_nat(n / 10);
        let text = front.push(digit_char(n % 10));
        assert(text.drop_last() =~= front);
        assert(text.last() == digit_char(n % 10));
    }
}

/// What kind of thing a synthetic name is made for.
pub enum NameKind {
    /// The slot of a temporary: the result of an addition or of a call.
    Slot,
    Block,
    /// An anonymous function.
    Lambda,
    /// A struct type literal.
    StructType,
}

/// The name made for the n-th thing of a kind.
pub open spec fn synthetic_name(kind: NameKind, n: nat) -> Seq<char> {
    match kind {
        NameKind::Slot => decimal_nat(n),
        NameKind::Block => block_name(n),
        NameKind::Lambda => lambda_name(n),
        NameKind::StructType => struct_type_name(n),
    }
}

/// What follows the number in the names of a kind.
pub open spec fn name_ending(kind: NameKind) -> Seq<char> {
    match kind {
        NameKind::Slot => Seq::empty(),
        NameKind::Block => "_block"@,
        NameKind::Lambda => "_lambda"@,
        NameKind::StructType => "_anon_type"@,
    }
}

/// The counter from which the names of a kind take their numbers.
pub open spec fn counter_of(st: LowerState, kind: NameKind) -> usize {
    match kind {
        NameKind::Slot => st.locals_counter,
        NameKind::Block => st.block_counter,
        NameKind::Lambda => st.lambda_counter,
        NameKind::StructType => st.type_counter,
    }
}

/// The state after one more name of a kind has been taken.
pub open spec fn taken(st: LowerState, kind: NameKind) -> LowerState {
    match kind {
        NameKind::Slot => take_local(st),
        NameKind::Block => take_block(st),
        NameKind::Lambda => take_lambda(st),
        NameKind::StructType => take_type(st),
    }
}

/// Two texts that begin with digits and go on with something that is no
/// digit are equal only where the digits are and what follows them is.
proof fn lemma_split_at_digits(d1: Seq<char>, e1: Seq<char>, d2: Seq<char>, e2: Seq<char>)
    requires
        all_digits(d1),
        all_digits(d2),
        e1.len() == 0 || !is_decimal_digit(e1[0]),
        e2.len() == 0 || !is_decimal_digit(e2[0]),
        d1 + e1 == d2 + e2,
    ensures
        d1 == d2,
        e1 == e2,
{
    let whole = d1 + e1;
    assert(whole.len() == d1.len() + e1.len());
    assert(whole.len() == d2.len() + e2.len());
    if d1.len() < d2.len() {
        assert(whole[d1.len() as int] == d2[d1.len() as int]);
        assert(whole[d1.len() as int] == e1[0]);
    } else if d2.len() < d1.len() {
        assert(whole[d2.len() as int] == d1[d2.len() as int]);
        assert(whole[d2.len() as int] == e2[0]);
    }
    assert(d1 =~= d2) by {
        assert forall|i: int| 0 <= i < d1.len() implies d1[i] == d2[i] by {
            assert(whole[i] == d1[i]);
            assert(whole[i] == d2[i]);
        }
    }
    assert(e1 =~= e2) by {
        assert forall|i: int| 0 <= i < e1.len() implies e1[i] == e2[i] by {
            assert(whole[d1.len() + i] == e1[i]);
            assert(whole[d2.len() + i] == e2[i]);
        }
    }
}

/// A synthetic name tells its kind and its number: two of them are equal
/// only where both are.
pub proof fn lemma_names_differ(kind: NameKind, n: nat, other_kind: NameKind, m: nat)
    requires
        synthetic_name(kind, n) == synthetic_name(other_kind, m),
    ensures
        kind == other_kind,
        n == m,
{
    reveal_strlit("_block");
    reveal_strlit("_lambda");
    reveal_strlit("_anon_type");
    lemma_decimal_is_digits(n);
    lemma_decimal_is_digits(m);
    assert(synthetic_name(kind, n) =~= decimal_nat(n) + name_ending(kind));
    assert(synthetic_name(other_kind, m) =~= decimal_nat(m) + name_ending(other_kind));
    lemma_split_at_digits(
        decimal_nat(n),
        name_ending(kind),
        decimal_nat(m),
        name_ending(other_kind),
    );
    assert(name_ending(kind).len() == name_ending(other_kind).len());
    lemma_decimal_reads_back(n);
    lemma_decimal_reads_back(m);
}

/// Whether a name is one that a lowering pass has made before it reached
/// a state: the name of some kind, with a number below the counter of
/// that kind.
pub open spec fn stamped(name: Seq<char>, st: LowerState) -> bool {
    exists|kind: NameKind, k: nat|
        k < counter_of(st, kind) && name == #[trigger] synthetic_name(kind, k)
}

/// Whether names are such as a lowering pass makes them: none occurs more
/// than once, and each has been made before the pass reached the state.
pub open spec fn minted(names: Multiset<Seq<char>>, st: LowerState) -> bool {
    forall|name: Seq<char>| #[trigger]
        names.count(name) > 0 ==> names.count(name) == 1 && stamped(name, st)
}

/// Whether no counter for names is further in one state than in another.
pub open spec fn not_beyond(before: LowerState, after: LowerState) -> bool {
    forall|kind: NameKind| #[trigger] counter_of(before, kind) <= counter_of(after, kind)
}

proof fn lemma_follows_is_not_beyond(before: LowerState, after: LowerState)
    requires
        follows(before, after),
    ensures
        not_beyond(before, after),
{
}

/// Names that were made before a state were made before every later one.
proof fn lemma_minted_later(names: Multiset<Seq<char>>, st: LowerState, later: LowerState)
    requires
        minted(names, st),
        not_beyond(st, later),
    ensures
        minted(names, later),
{
    assert forall|name: Seq<char>| #[trigger] names.count(name) > 0 implies names.count(name) == 1
        && stamped(name, later) by {
        let (kind, k) = choose|kind: NameKind, k: nat|
            k < counter_of(st, kind) && name == #[trigger] synthetic_name(kind, k);
        assert(counter_of(st, kind) <= counter_of(later, kind));
        assert(k < counter_of(later, kind) && name == synthetic_name(kind, k));
    }
}

/// The next name of a kind is new: it is none of those made so far.
proof fn lemma_mint_one(names: Multiset<Seq<char>>, kind: NameKind, st: LowerState)
    requires
        minted(names, st),
        counter_of(st, kind) < usize::MAX,
    ensures
        minted(
            names.add(Multiset::singleton(synthetic_name(kind, counter_of(st, kind) as nat))),
            taken(st, kind),
        ),
        not_beyond(st, taken(st, kind)),
{
    let fresh = synthetic_name(kind, counter_of(st, kind) as nat);
    let after = taken(st, kind);
    let grown = names.add(Multiset::singleton(fresh));
    assert(not_beyond(st, after));
    assert(counter_of(after, kind) == counter_of(st, kind) + 1);
    if names.count(fresh) > 0 {
        let (other_kind, k) = choose|other_kind: NameKind, k: nat|
            k < counter_of(st, other_kind) && fresh == #[trigger] synthetic_name(other_kind, k);
        lemma_names_differ(kind, counter_of(st, kind) as nat, other_kind, k);
    }
    assert forall|name: Seq<char>| #[trigger] grown.count(name) > 0 implies grown.count(name) == 1
        && stamped(name, after) by {
        if name == fresh {
            assert(counter_of(st, kind) < counter_of(after, kind) && name == synthetic_name(
                kind,
                counter_of(st, kind) as nat,
            ));
        } else {
            assert(names.count(name) > 0);
            let (other_kind, k) = choose|other_kind: NameKind, k: nat|
                k < counter_of(st, other_kind) && name == #[trigger] synthetic_name(other_kind, k);
            assert(counter_of(st, other_kind) <= counter_of(after, other_kind));
            assert(k < counter_of(after, other_kind) && name == synthetic_name(other_kind, k));
        }
    }
}

/// Some of the names that a pass has made are names that it has made.
proof fn lemma_minted_part(
    names: Multiset<Seq<char>>,
    more: Multiset<Seq<char>>,
    st: LowerState,
)
    requires
        minted(names.add(more), st),
    ensures
        minted(names, st),
{
    assert forall|name: Seq<char>| #[trigger] names.count(name) > 0 implies names.count(name) == 1
        && stamped(name, st) by {
        assert(names.add(more).count(name) > 0);
    }
}

/// Whether a name has the form of the name of an anonymous function.
pub open spec fn is_lambda_name(name: Seq<char>) -> bool {
    exists|n: nat| name == #[trigger] lambda_name(n)
}

/// The synthetic names in an instruction, each as often as it occurs: the
/// names of the slots that additions, subtractions and calls fill, the
/// names of blocks and of type declarations, and the names of functions
/// that have the form of the name of an anonymous function.
pub open spec fn names_in(i: InstrModel) -> Multiset<Seq<char>>
    decreases i,
{
    match i {
        InstrModel::ADD(name, _, _) => Multiset::singleton(name),
        InstrModel::SUB(name, _, _) => Multiset::singleton(name),
        InstrModel::CALL(name, _, _) => Multiset::singleton(name),
        InstrModel::TYPE(name, _) => Multiset::singleton(name),
        InstrModel::BLOCK(name, items) => Multiset::singleton(name).add(
            names_in_first(items, items.len()),
        ),
        InstrModel::PROGRAM(items) => names_in_first(items, items.len()),
        InstrModel::COND_BR(_, body, else_body) => names_in(*body).add(
            match else_body {
                Some(e) => names_in(*e),
                None => Multiset::empty(),
            },
        ),
        InstrModel::FUNC(name, _, body) => (if is_lambda_name(name) {
            Multiset::singleton(name)
        } else {
            Multiset::empty()
        }).add(names_in(*body)),
        _ => Multiset::empty(),
    }
}

/// The synthetic names in the first `n` instructions of a list.
pub open spec fn names_in_first(items: Seq<InstrModel>, n: nat) -> Multiset<Seq<char>>
    decreases items, n,
{
    if n == 0 || n > items.len() {
        Multiset::empty()
    } else {
        names_in_first(items, (n - 1) as nat).add(names_in(items[n - 1]))
    }
}

/// The synthetic names in the instructions of a list.
pub open spec fn names_in_all(items: Seq<InstrModel>) -> Multiset<Seq<char>> {
    names_in_first(items, items.len())
}

/// The synthetic names in an instruction that may be missing.
pub open spec fn names_in_opt(i: Option<InstrModel>) -> Multiset<Seq<char>> {
    match i {
        Some(i) => names_in(i),
        None => Multiset::empty(),
    }
}

proof fn lemma_names_of_prefix(items: Seq<InstrModel>, i: InstrModel, n: nat)
    requires
        n <= items.len(),
    ensures
        names_in_first(items.push(i), n) == names_in_first(items, n),
    decreases n,
{
    if n > 0 {
        lemma_names_of_prefix(items, i, (n - 1) as nat);
        assert(items.push(i)[n - 1] == items[n - 1]);
    }
}

/// The names in a list with one more instruction are those in the list
/// and those in the instruction.
proof fn lemma_names_of_push(items: Seq<InstrModel>, i: InstrModel)
    ensures
        names_in_all(items.push(i)) == names_in_all(items).add(names_in(i)),
{
    lemma_names_of_prefix(items, i, items.len());
    assert(items.push(i)[items.len() as int] == i);
}

/// Whether no function of a tree has been given, by whoever wrote the
/// tree, a name of the form that anonymous functions get. Only the parts
/// of the tree that lowering puts into the program count.
pub open spec fn plainly_named(a: AstModel) -> bool
    decreases a,
{
    match a {
        AstModel::PROGRAM(items) => forall|k: int|
            0 <= k < items.len() ==> plainly_named(#[trigger] items[k]),
        AstModel::STMT(inner) => plainly_named(*inner),
        AstModel::BINARY(left, _, right) => plainly_named(*left) && plainly_named(*right),
        AstModel::DECL(d) => match d.typ {
            Some(TypeModel::STRUCT(_)) => true,
            _ => match d.value {
                Some(v) => plainly_named(*v),
                None => true,
            },
        },
        AstModel::BLOCK(_, items) => forall|k: int|
            0 <= k < items.len() ==> plainly_named(#[trigger] items[k]),
        AstModel::IF(condition, body, else_body) => plainly_named(*condition) && plainly_named(
            *body,
        ) && (match else_body {
            Some(e) => plainly_named(*e),
            None => true,
        }),
        AstModel::CALL(_, args) => forall|k: int|
            0 <= k < args.len() ==> plainly_named(#[trigger] args[k]),
        AstModel::ASSIGN(_, rhs) => plainly_named(*rhs),
        AstModel::FN(identifier, _, body) => (match identifier {
            Some(name) => !is_lambda_name(name),
            None => true,
        }) && plainly_named(*body),
        _ => true,
    }
}

/// Whether every tree of a list is plainly named.
pub open spec fn all_plainly_named(items: Seq<AstModel>) -> bool {
    forall|k: int| 0 <= k < items.len() ==> plainly_named(#[trigger] items[k])
}

/// What lowering a node keeps true of the names.
pub open spec fn mints(
    a: AstModel,
    st: LowerState,
    block: Seq<InstrModel>,
    opts: OptionsModel,
    others: Multiset<Seq<char>>,
) -> bool {
    lower(a, st, block, opts).result matches Ok((instruction, _)) ==> minted(
        others.add(names_in_all(lower(a, st, block, opts).block)).add(names_in_opt(instruction)),
        lower(a, st, block, opts).state,
    )
}

proof fn lemma_mints_program(
    a: AstModel,
    st: LowerState,
    block: Seq<InstrModel>,
    opts: OptionsModel,
    others: Multiset<Seq<char>>,
)
    requires
        a is PROGRAM,
        plainly_named(a),
        minted(others.add(names_in_all(block)), st),
    ensures
        mints(a, st, block, opts, others),
    decreases a, 0nat,
{
    let r = lower(a, st, block, opts);
    let alive = others.add(names_in_all(block));
    lemma_lower_appends(a, st, block, opts);
    lemma_follows_is_not_beyond(st, r.state);
    assert(alive.add(Multiset::empty()) =~= alive);
    match a {
        AstModel::PROGRAM(items) => {
            lemma_lower_items_mints(items, 0, st, block, opts, others);
            assert(others.add(names_in_all(r.block)).add(Multiset::empty()) =~= others.add(
                names_in_all(r.block),
            ));
        },
        _ => {},
    }
}

proof fn lemma_mints_stmt(
    a: AstModel,
    st: LowerState,
    block: Seq<InstrModel>,
    opts: OptionsModel,
    others: Multiset<Seq<char>>,
)
    requires
        a is STMT,
        plainly_named(a),
        minted(others.add(names_in_all(block)), st),
    ensures
        mints(a, st, block, opts, others),
    decreases a, 0nat,
{
    let r = lower(a, st, block, opts);
    let alive = others.add(names_in_all(block));
    lemma_lower_appends(a, st, block, opts);
    lemma_follows_is_not_beyond(st, r.state);
    assert(alive.add(Multiset::empty()) =~= alive);
    match a {
        AstModel::STMT(inner) => {
            lemma_lower_mints(*inner, st, block, opts, others);
        },
        _ => {},
    }
}

proof fn lemma_mints_binary(
    a: AstModel,
    st: LowerState,
    block: Seq<InstrModel>,
    opts: OptionsModel,
    others: Multiset<Seq<char>>,
)
    requires
        a is BINARY,
        plainly_named(a),
        minted(others.add(names_in_all(block)), st),
    ensures
        mints(a, st, block, opts, others),
    decreases a, 0nat,
{
    let r = lower(a, st, block, opts);
    let alive = others.add(names_in_all(block));
    lemma_lower_appends(a, st, block, opts);
    lemma_follows_is_not_beyond(st, r.state);
    assert(alive.add(Multiset::empty()) =~= alive);
    match a {
        AstModel::BINARY(left, op, right) => {
            lemma_lower_mints(*left, st, block, opts, others);
            let l = lower(*left, st, block, opts);
            if l.result is Ok {
                lemma_minted_part(
                    others.add(names_in_all(l.block)),
                    names_in_opt(l.result->Ok_0.0),
                    l.state,
                );
                lemma_lower_mints(*right, l.state, l.block, opts, others);
                let rr = lower(*right, l.state, l.block, opts);
                if rr.result is Ok {
                    let kept = others.add(names_in_all(rr.block));
                    lemma_minted_part(kept, names_in_opt(rr.result->Ok_0.0), rr.state);
                    let lv = l.result->Ok_0.1;
                    let rv = rr.result->Ok_0.1;
                    if lv is Some && rv is Some && rr.state.locals_counter != usize::MAX {
                        let name = decimal_nat(rr.state.locals_counter as nat);
                        lemma_mint_one(kept, NameKind::Slot, rr.state);
                        lemma_minted_later(kept, rr.state, take_local(rr.state));
                        lemma_names_of_push(rr.block, InstrModel::ADD(name, lv->0, rv->0));
                        assert(kept.add(Multiset::empty()) =~= kept);
                        assert(others.add(
                            names_in_all(rr.block.push(InstrModel::ADD(name, lv->0, rv->0))),
                        ).add(Multiset::empty()) =~= kept.add(Multiset::singleton(name)));
                    }
                }
            }
        },
        _ => {},
    }
}

proof fn lemma_mints_number(
    a: AstModel,
    st: LowerState,
    block: Seq<InstrModel>,
    opts: OptionsModel,
    others: Multiset<Seq<char>>,
)
    requires
        a is NUMBER,
        plainly_named(a),
        minted(others.add(names_in_all(block)), st),
    ensures
        mints(a, st, block, opts, others),
    decreases a, 0nat,
{
    let r = lower(a, st, block, opts);
    let alive = others.add(names_in_all(block));
    lemma_lower_appends(a, st, block, opts);
    lemma_follows_is_not_beyond(st, r.state);
    assert(alive.add(Multiset::empty()) =~= alive);
    match a {
        AstModel::NUMBER(_) => {
            lemma_minted_later(alive, st, r.state);
        },
        _ => {},
    }
}

proof fn lemma_mints_string(
    a: AstModel,
    st: LowerState,
    block: Seq<InstrModel>,
    opts: OptionsModel,
    others: Multiset<Seq<char>>,
)
    requires
        a is STRING,
        plainly_named(a),
        minted(others.add(names_in_all(block)), st),
    ensures
        mints(a, st, block, opts, others),
    decreases a, 0nat,
{
    let r = lower(a, st, block, opts);
    let alive = others.add(names_in_all(block));
    lemma_lower_appends(a, st, block, opts);
    lemma_follows_is_not_beyond(st, r.state);
    assert(alive.add(Multiset::empty()) =~= alive);
    match a {
        AstModel::STRING(_) => {
        },
        _ => {},
    }
}

proof fn lemma_mints_identifier(
    a: AstModel,
    st: LowerState,
    block: Seq<InstrModel>,
    opts: OptionsModel,
    others: Multiset<Seq<char>>,
)
    requires
        a is IDENTIFIER,
        plainly_named(a),
        minted(others.add(names_in_all(block)), st),
    ensures
        mints(a, st, block, opts, others),
    decreases a, 0nat,
{
    let r = lower(a, st, block, opts);
    let alive = others.add(names_in_all(block));
    lemma_lower_appends(a, st, block, opts);
    lemma_follows_is_not_beyond(st, r.state);
    assert(alive.add(Multiset::empty()) =~= alive);
    match a {
        AstModel::IDENTIFIER(_) => {
            lemma_minted_later(alive, st, r.state);
        },
        _ => {},
    }
}

proof fn lemma_mints_decl(
    a: AstModel,
    st: LowerState,
    block: Seq<InstrModel>,
    opts: OptionsModel,
    others: Multiset<Seq<char>>,
)
    requires
        a is DECL,
        plainly_named(a),
        minted(others.add(names_in_all(block)), st),
    ensures
        mints(a, st, block, opts, others),
    decreases a, 0nat,
{
    let r = lower(a, st, block, opts);
    let alive = others.add(names_in_all(block));
    lemma_lower_appends(a, st, block, opts);
    lemma_follows_is_not_beyond(st, r.state);
    assert(alive.add(Multiset::empty()) =~= alive);
    match a {
        AstModel::DECL(d) => {
            match d.typ {
                Some(TypeModel::STRUCT(name)) => {
                    let declared = InstrModel::STACK_VAR(
                        d.identifier,
                        TypeModel::STRUCT(name),
                        None,
                    );
                    lemma_names_of_push(block, declared);
                    assert(others.add(names_in_all(block.push(declared))).add(Multiset::empty())
                        =~= alive);
                },
                _ => {
                    let init = match d.value {
                        Some(v) => {
                            lemma_lower_mints(*v, st, block, opts, others);
                            lower(*v, st, block, opts)
                        },
                        None => crate::ir_parse::give(st, block, None, None),
                    };
                    if init.result is Ok {
                        let kept = others.add(names_in_all(init.block));
                        if d.value is Some {
                            lemma_minted_part(kept, names_in_opt(init.result->Ok_0.0), init.state);
                        }
                        lemma_minted_later(kept, init.state, r.state);
                        if r.result is Ok {
                            let declared = r.block.last();
                            assert(r.block =~= init.block.push(declared));
                            assert(names_in(declared) =~= Multiset::empty());
                            lemma_names_of_push(init.block, declared);
                            assert(others.add(names_in_all(r.block)).add(Multiset::empty())
                                =~= kept);
                        }
                    }
                },
            }
        },
        _ => {},
    }
}

proof fn lemma_mints_block(
    a: AstModel,
    st: LowerState,
    block: Seq<InstrModel>,
    opts: OptionsModel,
    others: Multiset<Seq<char>>,
)
    requires
        a is BLOCK,
        plainly_named(a),
        minted(others.add(names_in_all(block)), st),
    ensures
        mints(a, st, block, opts, others),
    decreases a, 0nat,
{
    let r = lower(a, st, block, opts);
    let alive = others.add(names_in_all(block));
    lemma_lower_appends(a, st, block, opts);
    lemma_follows_is_not_beyond(st, r.state);
    assert(alive.add(Multiset::empty()) =~= alive);
    match a {
        AstModel::BLOCK(_, items) => {
            if st.block_counter != usize::MAX {
                let name = block_name(st.block_counter as nat);
                lemma_mint_one(alive, NameKind::Block, st);
                let held = alive.add(Multiset::singleton(name));
                assert(names_in_all(Seq::<InstrModel>::empty()) =~= Multiset::empty());
                assert(held.add(names_in_all(Seq::<InstrModel>::empty())) =~= held);
                lemma_lower_items_mints(items, 0, take_block(st), Seq::empty(), opts, held);
                let inner = lower_items(items, 0, take_block(st), Seq::empty(), opts);
                if inner.result is Ok {
                    assert(alive.add(names_in(InstrModel::BLOCK(name, inner.block))) =~= held.add(
                        names_in_all(inner.block),
                    ));
                }
            }
        },
        _ => {},
    }
}

proof fn lemma_mints_if(
    a: AstModel,
    st: LowerState,
    block: Seq<InstrModel>,
    opts: OptionsModel,
    others: Multiset<Seq<char>>,
)
    requires
        a is IF,
        plainly_named(a),
        minted(others.add(names_in_all(block)), st),
    ensures
        mints(a, st, block, opts, others),
    decreases a, 0nat,
{
    let r = lower(a, st, block, opts);
    let alive = others.add(names_in_all(block));
    lemma_lower_appends(a, st, block, opts);
    lemma_follows_is_not_beyond(st, r.state);
    assert(alive.add(Multiset::empty()) =~= alive);
    match a {
        AstModel::IF(condition, body, else_body) => {
            lemma_lower_mints(*condition, st, block, opts, others);
            let c = lower(*condition, st, block, opts);
            if c.result matches Ok((_, Some(_))) {
                lemma_minted_part(
                    others.add(names_in_all(c.block)),
                    names_in_opt(c.result->Ok_0.0),
                    c.state,
                );
                lemma_lower_mints(*body, c.state, c.block, opts, others);
                let b = lower(*body, c.state, c.block, opts);
                if b.result matches Ok((Some(_), _)) {
                    let bi = b.result->Ok_0.0->0;
                    let cv = c.result->Ok_0.1->0;
                    match else_body {
                        Some(other) => {
                            let held = others.add(names_in(bi));
                            assert(held.add(names_in_all(b.block)) =~= others.add(
                                names_in_all(b.block),
                            ).add(names_in(bi)));
                            lemma_lower_mints(*other, b.state, b.block, opts, held);
                            let e = lower(*other, b.state, b.block, opts);
                            if e.result matches Ok((Some(_), _)) {
                                let ei = e.result->Ok_0.0->0;
                                assert(others.add(names_in_all(e.block)).add(
                                    names_in(
                                        InstrModel::COND_BR(cv, Box::new(bi), Some(Box::new(ei))),
                                    ),
                                ) =~= held.add(names_in_all(e.block)).add(names_in(ei)));
                            }
                        },
                        None => {
                            assert(names_in(InstrModel::COND_BR(cv, Box::new(bi), None))
                                =~= names_in(bi));
                        },
                    }
                }
            }
        },
        _ => {},
    }
}

proof fn lemma_mints_call(
    a: AstModel,
    st: LowerState,
    block: Seq<InstrModel>,
    opts: OptionsModel,
    others: Multiset<Seq<char>>,
)
    requires
        a is CALL,
        plainly_named(a),
        minted(others.add(names_in_all(block)), st),
    ensures
        mints(a, st, block, opts, others),
    decreases a, 0nat,
{
    let r = lower(a, st, block, opts);
    let alive = others.add(names_in_all(block));
    lemma_lower_appends(a, st, block, opts);
    lemma_follows_is_not_beyond(st, r.state);
    assert(alive.add(Multiset::empty()) =~= alive);
    match a {
        AstModel::CALL(callee, args) => {
            match *callee {
                AstModel::IDENTIFIER(f) => {
                    if st.locals_counter != usize::MAX {
                        let name = decimal_nat(st.locals_counter as nat);
                        lemma_mint_one(alive, NameKind::Slot, st);
                        let held = others.add(Multiset::singleton(name));
                        assert(held.add(names_in_all(block)) =~= alive.add(
                            Multiset::singleton(name),
                        ));
                        lemma_lower_args_mints(
                            args,
                            0,
                            take_local(st),
                            block,
                            Seq::empty(),
                            opts,
                            held,
                        );
                        let la = lower_args(args, 0, take_local(st), block, Seq::empty(), opts);
                        if la.result is Ok {
                            let called = InstrModel::CALL(name, f, la.result->Ok_0);
                            lemma_names_of_push(la.block, called);
                            assert(others.add(names_in_all(la.block.push(called))).add(
                                Multiset::empty(),
                            ) =~= held.add(names_in_all(la.block)));
                        }
                    }
                },
                _ => {},
            }
        },
        _ => {},
    }
}

proof fn lemma_mints_assign(
    a: AstModel,
    st: LowerState,
    block: Seq<InstrModel>,
    opts: OptionsModel,
    others: Multiset<Seq<char>>,
)
    requires
        a is ASSIGN,
        plainly_named(a),
        minted(others.add(names_in_all(block)), st),
    ensures
        mints(a, st, block, opts, others),
    decreases a, 0nat,
{
    let r = lower(a, st, block, opts);
    let alive = others.add(names_in_all(block));
    lemma_lower_appends(a, st, block, opts);
    lemma_follows_is_not_beyond(st, r.state);
    assert(alive.add(Multiset::empty()) =~= alive);
    match a {
        AstModel::ASSIGN(lhs, rhs) => {
            match *lhs {
                AstModel::IDENTIFIER(target) => {
                    lemma_lower_mints(*rhs, st, block, opts, others);
                    let rr = lower(*rhs, st, block, opts);
                    if rr.result matches Ok((_, Some(_))) {
                        let kept = others.add(names_in_all(rr.block));
                        lemma_minted_part(kept, names_in_opt(rr.result->Ok_0.0), rr.state);
                        let stored = InstrModel::STORE(target, rr.result->Ok_0.1->0);
                        lemma_names_of_push(rr.block, stored);
                        assert(others.add(names_in_all(rr.block.push(stored))).add(
                            Multiset::empty(),
                        ) =~= kept);
                    }
                },
                _ => {},
            }
        },
        _ => {},
    }
}

proof fn lemma_mints_fn(
    a: AstModel,
    st: LowerState,
    block: Seq<InstrModel>,
    opts: OptionsModel,
    others: Multiset<Seq<char>>,
)
    requires
        a is FN,
        plainly_named(a),
        minted(others.add(names_in_all(block)), st),
    ensures
        mints(a, st, block, opts, others),
    decreases a, 0nat,
{
    let r = lower(a, st, block, opts);
    let alive = others.add(names_in_all(block));
    lemma_lower_appends(a, st, block, opts);
    lemma_follows_is_not_beyond(st, r.state);
    assert(alive.add(Multiset::empty()) =~= alive);
    match a {
        AstModel::FN(identifier, params, body) => {
            if !(identifier is None && st.lambda_counter == usize::MAX) {
                match identifier {
                    Some(given) => {
                        lemma_lower_mints(*body, st, block, opts, others);
                        let b = lower(*body, st, block, opts);
                        if r.result is Ok {
                            let bi = b.result->Ok_0.0->0;
                            let made = r.result->Ok_0.0->0;
                            assert(names_in(made) =~= names_in(bi));
                        }
                    },
                    None => {
                        let name = lambda_name(st.lambda_counter as nat);
                        lemma_mint_one(alive, NameKind::Lambda, st);
                        let held = others.add(Multiset::singleton(name));
                        assert(held.add(names_in_all(block)) =~= alive.add(
                            Multiset::singleton(name),
                        ));
                        lemma_lower_mints(*body, take_lambda(st), block, opts, held);
                        let b = lower(*body, take_lambda(st), block, opts);
                        if r.result is Ok {
                            let bi = b.result->Ok_0.0->0;
                            let made = r.result->Ok_0.0->0;
                            assert(is_lambda_name(name));
                            assert(names_in(made) =~= Multiset::singleton(name).add(names_in(bi)));
                            assert(others.add(names_in_all(b.block)).add(names_in(made))
                                =~= held.add(names_in_all(b.block)).add(names_in(bi)));
                        }
                    },
                }
            }
        },
        _ => {},
    }
}

proof fn lemma_mints_type(
    a: AstModel,
    st: LowerState,
    block: Seq<InstrModel>,
    opts: OptionsModel,
    others: Multiset<Seq<char>>,
)
    requires
        a is TYPE,
        plainly_named(a),
        minted(others.add(names_in_all(block)), st),
    ensures
        mints(a, st, block, opts, others),
    decreases a, 0nat,
{
    let r = lower(a, st, block, opts);
    let alive = others.add(names_in_all(block));
    lemma_lower_appends(a, st, block, opts);
    lemma_follows_is_not_beyond(st, r.state);
    assert(alive.add(Multiset::empty()) =~= alive);
    match a {
        AstModel::TYPE(fields, _) => {
            if st.type_counter != usize::MAX {
                let name = struct_type_name(st.type_counter as nat);
                lemma_mint_one(alive, NameKind::StructType, st);
                let declared = r.block.last();
                assert(r.block =~= block.push(declared));
                assert(names_in(declared) =~= Multiset::singleton(name));
                lemma_names_of_push(block, declared);
                assert(others.add(names_in_all(r.block)).add(Multiset::empty()) =~= alive.add(
                    Multiset::singleton(name),
                ));
            }
        },
        _ => {},
    }
}

proof fn lemma_mints_left_unary(
    a: AstModel,
    st: LowerState,
    block: Seq<InstrModel>,
    opts: OptionsModel,
    others: Multiset<Seq<char>>,
)
    requires
        a is LEFT_UNARY,
        plainly_named(a),
        minted(others.add(names_in_all(block)), st),
    ensures
        mints(a, st, block, opts, others),
    decreases a, 0nat,
{
    let r = lower(a, st, block, opts);
    let alive = others.add(names_in_all(block));
    lemma_lower_appends(a, st, block, opts);
    lemma_follows_is_not_beyond(st, r.state);
    assert(alive.add(Multiset::empty()) =~= alive);
    match a {
        AstModel::LEFT_UNARY(operand) => {
            lemma_minted_later(alive, st, r.state);
        },
        _ => {},
    }
}

/// Lowering makes every synthetic name once. Where the names in the
/// current block, and any others that are held by, were made by the pass
/// and none of them occurs twice, the same holds of them together with
/// every name that lowering a node adds.
pub proof fn lemma_lower_mints(
    a: AstModel,
    st: LowerState,
    block: Seq<InstrModel>,
    opts: OptionsModel,
    others: Multiset<Seq<char>>,
)
    requires
        plainly_named(a),
        minted(others.add(names_in_all(block)), st),
    ensures
        mints(a, st, block, opts, others),
    decreases a, 1nat,
{
    match a {
        AstModel::PROGRAM(..) => lemma_mints_program(a, st, block, opts, others),
        AstModel::STMT(..) => lemma_mints_stmt(a, st, block, opts, others),
        AstModel::BINARY(..) => lemma_mints_binary(a, st, block, opts, others),
        AstModel::NUMBER(..) => lemma_mints_number(a, st, block, opts, others),
        AstModel::STRING(..) => lemma_mints_string(a, st, block, opts, others),
        AstModel::IDENTIFIER(..) => lemma_mints_identifier(a, st, block, opts, others),
        AstModel::DECL(..) => lemma_mints_decl(a, st, block, opts, others),
        AstModel::BLOCK(..) => lemma_mints_block(a, st, block, opts, others),
        AstModel::IF(..) => lemma_mints_if(a, st, block, opts, others),
        AstModel::CALL(..) => lemma_mints_call(a, st, block, opts, others),
        AstModel::ASSIGN(..) => lemma_mints_assign(a, st, block, opts, others),
        AstModel::FN(..) => lemma_mints_fn(a, st, block, opts, others),
        AstModel::TYPE(..) => lemma_mints_type(a, st, block, opts, others),
        AstModel::LEFT_UNARY(..) => lemma_mints_left_unary(a, st, block, opts, others),
        _ => {},
    }
}

/// Lowering a list of statements makes every synthetic name once.
pub proof fn lemma_lower_items_mints(
    items: Seq<AstModel>,
    from: int,
    st: LowerState,
    block: Seq<InstrModel>,
    opts: OptionsModel,
    others: Multiset<Seq<char>>,
)
    requires
        all_plainly_named(items),
        minted(others.add(names_in_all(block)), st),
    ensures
        lower_items(items, from, st, block, opts).result is Ok ==> minted(
            others.add(names_in_all(lower_items(items, from, st, block, opts).block)),
            lower_items(items, from, st, block, opts).state,
        ),
        lower_items(items, from, st, block, opts).result matches Ok((i, _)) ==> i is None,
    decreases items, items.len() - from,
{
    if 0 <= from < items.len() {
        lemma_lower_mints(items[from], st, block, opts, others);
        let r = lower(items[from], st, block, opts);
        match r.result {
            Err(_) => {},
            Ok((instruction, _)) => {
                let next = match instruction {
                    Some(i) => {
                        lemma_names_of_push(r.block, i);
                        r.block.push(i)
                    },
                    None => r.block,
                };
                assert(others.add(names_in_all(next)) =~= others.add(names_in_all(r.block)).add(
                    names_in_opt(instruction),
                ));
                lemma_lower_items_mints(items, from + 1, r.state, next, opts, others);
            },
        }
    }
}

/// Lowering the arguments of a call makes every synthetic name once.
pub proof fn lemma_lower_args_mints(
    args: Seq<AstModel>,
    from: int,
    st: LowerState,
    block: Seq<InstrModel>,
    values: Seq<ValueModel>,
    opts: OptionsModel,
    others: Multiset<Seq<char>>,
)
    requires
        all_plainly_named(args),
        minted(others.add(names_in_all(block)), st),
    ensures
        lower_args(args, from, st, block, values, opts).result is Ok ==> minted(
            others.add(names_in_all(lower_args(args, from, st, block, values, opts).block)),
            lower_args(args, from, st, block, values, opts).state,
        ),
    decreases args, args.len() - from,
{
    if 0 <= from < args.len() {
        lemma_lower_mints(args[from], st, block, opts, others);
        let r = lower(args[from], st, block, opts);
        match r.result {
            Ok((instruction, Some(v))) => {
                lemma_minted_part(
                    others.add(names_in_all(r.block)),
                    names_in_opt(instruction),
                    r.state,
                );
                lemma_lower_args_mints(args, from + 1, r.state, r.block, values.push(v), opts, others);
            },
            _ => {},
        }
    }
}

/// No synthetic name is used twice in a program. Whatever tree a pass
/// lowers, and from whatever counters it starts, the slots of the
/// additions and calls, the blocks, the type declarations and the
/// anonymous functions of the program it produces all have names of their
/// own.
///
/// A function that the tree itself names in the form kept for anonymous
/// functions is not told apart from these in a program, so the law
/// speaks of trees that name no function so.
pub proof fn lemma_synthetic_names_are_unique(a: AstModel, st: LowerState, opts: OptionsModel)
    requires
        plainly_named(a),
    ensures
        lower_program(a, st, opts).result matches Ok(program) ==> forall|name: Seq<char>|
            names_in(program).count(name) <= 1,
{
    let none = Multiset::<Seq<char>>::empty();
    assert(names_in_all(Seq::<InstrModel>::empty()) =~= none);
    assert(none.add(names_in_all(Seq::<InstrModel>::empty())) =~= none);
    lemma_lower_mints(a, st, Seq::empty(), opts, none);
    let r = lower(a, st, Seq::empty(), opts);
    if r.result is Ok {
        lemma_minted_part(none.add(names_in_all(r.block)), names_in_opt(r.result->Ok_0.0), r.state);
        assert(none.add(names_in_all(r.block)) =~= names_in_all(r.block));
        assert forall|name: Seq<char>| names_in(InstrModel::PROGRAM(r.block)).count(name) <= 1 by {
            if names_in_all(r.block).count(name) > 0 {
            }
        }
    }
}

} // verus!
