//! What a program is lowered to.
//!
//! The lowering of an expression, a statement or a function is a function of
//! the syntax tree, the function table and the function under construction.
//! Every local variable lives in a stack slot that is reserved when the
//! function is entered, and is read and written through loads and stores, so
//! that no block ever has to merge values that arrive from different
//! branches.
use vstd::prelude::*;
use crate::ast::{
    ArgumentDeclaration, Expression, FileElement, Identifier, Located, Prototype, Statement,
};
use crate::error::ErrorView;
use crate::interpreter::{FunctionTableEntry, table_of};
use crate::native::{
    BlockView, FunctionView, InstructionView, Label, NativeType, Operand, SlotView, ValueRef,
};

verus! {

/// A local variable: the stack slot that holds it, and its type.
#[derive(Debug, Clone, Copy, PartialEq, Eq, Structural)]
pub struct Variable {
    pub slot: usize,
    pub ty: NativeType,
}

/// The function under construction: its slots, its blocks, the block that
/// instructions are being added to, and the variables in scope.
pub struct Emitter {
    pub slots: Seq<SlotView>,
    pub blocks: Seq<BlockView>,
    pub position: usize,
    pub variables: Map<Seq<char>, Variable>,
}

impl Emitter {
    /// The value that the next instruction will have, with a type.
    pub open spec fn next(self, ty: NativeType) -> Operand {
        Operand {
            value: ValueRef {
                block: self.position,
                index: self.blocks[self.position as int].instructions.len() as usize,
            },
            ty,
        }
    }

    /// The function with an instruction added at the end of the current
    /// block.
    pub open spec fn emit(self, instruction: InstructionView) -> Emitter {
        Emitter {
            blocks: self.blocks.update(
                self.position as int,
                BlockView {
                    label: self.blocks[self.position as int].label,
                    instructions: self.blocks[self.position as int].instructions.push(instruction),
                },
            ),
            ..self
        }
    }

    /// The function with a new stack slot.
    pub open spec fn reserve(self, name: Seq<char>, ty: NativeType) -> Emitter {
        Emitter { slots: self.slots.push(SlotView { name, ty }), ..self }
    }

    /// The function with a new, empty block at its end.
    pub open spec fn append(self, label: Label) -> Emitter {
        Emitter { blocks: self.blocks.push(BlockView { label, instructions: Seq::empty() }), ..self }
    }

    /// The function with instructions going to another block.
    pub open spec fn at(self, position: usize) -> Emitter {
        Emitter { position, ..self }
    }

    /// The function with a name bound to a stack slot.
    pub open spec fn bound(self, name: Seq<char>, variable: Variable) -> Emitter {
        Emitter { variables: self.variables.insert(name, variable), ..self }
    }
}

/// The native type of what the function of a name returns; `None` for a name
/// that is not a function of the program.
pub open spec fn callee_type<'a>(
    table: Map<Seq<char>, FunctionTableEntry<'a, ()>>,
    name: Seq<char>,
) -> Option<NativeType> {
    if table.contains_key(name) {
        match table[name] {
            FunctionTableEntry::Interpreted(element) => Some(
                NativeType::spec_of_return(element.value.spec_prototype().value.return_type),
            ),
            FunctionTableEntry::Builtin(_) => None,
        }
    } else {
        None
    }
}

/// The function after an expression has been lowered, and the value of the
/// expression.
///
/// A literal is a constant, a name the load of its slot, a call a call
/// instruction, whose value must not be void here.
pub open spec fn lower_expression<'a>(
    source: Seq<char>,
    table: Map<Seq<char>, FunctionTableEntry<'a, ()>>,
    state: Emitter,
    expression: Located<Expression>,
) -> Result<(Emitter, Operand), ErrorView>
    decreases 0int, expression, 0int,
{
    match expression.value {
        Expression::BitLiteral(bit) => Ok(
            (state.emit(InstructionView::ConstBit(bit)), state.next(NativeType::Bit)),
        ),
        Expression::NumberLiteral(bits) => Ok(
            (state.emit(InstructionView::ConstNumber(bits)), state.next(NativeType::Number)),
        ),
        Expression::QubitLiteral(index) => Ok(
            (state.emit(InstructionView::ConstQubit(index)), state.next(NativeType::Qubit)),
        ),
        Expression::Identifier(name) => {
            if state.variables.contains_key(name@) {
                let variable = state.variables[name@];
                Ok(
                    (
                        state.emit(InstructionView::Load { slot: variable.slot }),
                        state.next(variable.ty),
                    ),
                )
            } else {
                Err(
                    ErrorView::UndefinedVariableError {
                        name: name@,
                        src: source,
                        span: expression.span(),
                    },
                )
            }
        },
        Expression::Call(name, arguments) => match lower_call(
            source,
            table,
            state,
            name,
            arguments,
        ) {
            Err(error) => Err(error),
            Ok((state, operand)) => {
                if operand.ty == NativeType::Void {
                    Err(
                        ErrorView::MissingValueError {
                            name: name.value@,
                            src: source,
                            span: expression.span(),
                        },
                    )
                } else {
                    Ok((state, operand))
                }
            },
        },
    }
}

/// The function after the first `n` arguments of a call have been lowered,
/// and their values.
pub open spec fn lower_arguments<'a>(
    source: Seq<char>,
    table: Map<Seq<char>, FunctionTableEntry<'a, ()>>,
    state: Emitter,
    arguments: Vec<Located<Expression>>,
    n: nat,
) -> Result<(Emitter, Seq<ValueRef>), ErrorView>
    decreases 0int, arguments, n,
{
    if n == 0 || n > arguments.len() {
        Ok((state, Seq::empty()))
    } else {
        match lower_arguments(source, table, state, arguments, (n - 1) as nat) {
            Err(error) => Err(error),
            Ok((state, values)) => match lower_expression(
                source,
                table,
                state,
                arguments[n - 1],
            ) {
                Err(error) => Err(error),
                Ok((state, operand)) => Ok((state, values.push(operand.value))),
            },
        }
    }
}

/// The function after a call has been lowered, and the value of the call,
/// which has the type that the callee returns. The callee is looked up
/// before the arguments are lowered.
pub open spec fn lower_call<'a>(
    source: Seq<char>,
    table: Map<Seq<char>, FunctionTableEntry<'a, ()>>,
    state: Emitter,
    name: Located<Identifier>,
    arguments: Vec<Located<Expression>>,
) -> Result<(Emitter, Operand), ErrorView>
    decreases 0int, arguments, arguments.len() + 1,
{
    match callee_type(table, name.value@) {
        None => Err(
            ErrorView::UndefinedFunctionError {
                name: name.value@,
                src: source,
                span: name.span(),
            },
        ),
        Some(return_type) => match lower_arguments(
            source,
            table,
            state,
            arguments,
            arguments.len() as nat,
        ) {
            Err(error) => Err(error),
            Ok((state, values)) => Ok(
                (
                    state.emit(InstructionView::Call { callee: name.value@, arguments: values }),
                    state.next(return_type),
                ),
            ),
        },
    }
}

/// The value of a condition, which has to be a bit.
pub open spec fn lower_condition<'a>(
    source: Seq<char>,
    table: Map<Seq<char>, FunctionTableEntry<'a, ()>>,
    state: Emitter,
    test: Located<Expression>,
) -> Result<(Emitter, Operand), ErrorView> {
    match lower_expression(source, table, state, test) {
        Err(error) => Err(error),
        Ok((state, operand)) => {
            if operand.ty == NativeType::Bit {
                Ok((state, operand))
            } else {
                Err(
                    ErrorView::TypeError {
                        expected: NativeType::Bit.spec_name(),
                        actual: operand.ty.spec_name(),
                        src: source,
                        expr_span: test.span(),
                        type_span: None,
                    },
                )
            }
        },
    }
}

/// The function after the first `n` statements of a block have been lowered.
pub open spec fn lower_body<'a>(
    source: Seq<char>,
    table: Map<Seq<char>, FunctionTableEntry<'a, ()>>,
    state: Emitter,
    body: Vec<Located<Statement>>,
    n: nat,
) -> Result<Emitter, ErrorView>
    decreases 1int, body, n,
{
    if n == 0 || n > body.len() {
        Ok(state)
    } else {
        match lower_body(source, table, state, body, (n - 1) as nat) {
            Err(error) => Err(error),
            Ok(state) => lower_statement(source, table, state, body[n - 1]),
        }
    }
}

/// The function after a statement has been lowered.
///
/// A declaration reserves a new slot, stores the value in it and binds the
/// name to it. An assignment stores to the slot of its name. A conditional
/// adds three blocks, for the two branches and for what follows; it branches
/// on its condition, lowers each branch into its block and lets each go on in
/// the third block, where the lowering goes on too. A loop adds three blocks
/// as well: one that evaluates the condition and is entered again after each
/// round, one for the body, and one for what follows.
pub open spec fn lower_statement<'a>(
    source: Seq<char>,
    table: Map<Seq<char>, FunctionTableEntry<'a, ()>>,
    state: Emitter,
    statement: Located<Statement>,
) -> Result<Emitter, ErrorView>
    decreases 1int, statement, 0int,
{
    match statement.value {
        Statement::VariableDeclaration(name, type_sig, value) => {
            let slot = state.slots.len() as usize;
            let ty = NativeType::spec_of(type_sig.value);
            match lower_expression(source, table, state.reserve(name.value@, ty), value) {
                Err(error) => Err(error),
                Ok((state, operand)) => Ok(
                    state.emit(InstructionView::Store { slot, value: operand.value }).bound(
                        name.value@,
                        Variable { slot, ty },
                    ),
                ),
            }
        },
        Statement::Assignment(name, value) => {
            if !state.variables.contains_key(name.value@) {
                Err(
                    ErrorView::UndefinedVariableError {
                        name: name.value@,
                        src: source,
                        span: name.span(),
                    },
                )
            } else {
                let slot = state.variables[name.value@].slot;
                match lower_expression(source, table, state, value) {
                    Err(error) => Err(error),
                    Ok((state, operand)) => Ok(
                        state.emit(InstructionView::Store { slot, value: operand.value }),
                    ),
                }
            }
        },
        Statement::Call(name, arguments) => match lower_call(
            source,
            table,
            state,
            name,
            arguments,
        ) {
            Err(error) => Err(error),
            Ok((state, _)) => Ok(state),
        },
        Statement::Return(value) => match lower_expression(source, table, state, value) {
            Err(error) => Err(error),
            Ok((state, operand)) => Ok(
                state.emit(InstructionView::Return { value: operand.value }),
            ),
        },
        Statement::If { condition, true_body, false_body } => {
            let then_block = state.blocks.len() as usize;
            let else_block = (state.blocks.len() + 1) as usize;
            let cont_block = (state.blocks.len() + 2) as usize;
            let state = state.append(Label::Then).append(Label::Else).append(Label::IfCont);
            match lower_condition(source, table, state, condition) {
                Err(error) => Err(error),
                Ok((state, operand)) => {
                    let state = state.emit(
                        InstructionView::ConditionalBranch {
                            condition: operand.value,
                            then_block,
                            else_block,
                        },
                    ).at(then_block);
                    match lower_body(source, table, state, true_body, true_body.len() as nat) {
                        Err(error) => Err(error),
                        Ok(state) => {
                            let state = state.emit(
                                InstructionView::Branch { target: cont_block },
                            ).at(else_block);
                            match lower_body(
                                source,
                                table,
                                state,
                                false_body,
                                false_body.len() as nat,
                            ) {
                                Err(error) => Err(error),
                                Ok(state) => Ok(
                                    state.emit(InstructionView::Branch { target: cont_block }).at(
                                        cont_block,
                                    ),
                                ),
                            }
                        },
                    }
                },
            }
        },
        Statement::While { condition, body } => {
            let cond_block = state.blocks.len() as usize;
            let body_block = (state.blocks.len() + 1) as usize;
            let exit_block = (state.blocks.len() + 2) as usize;
            let state = state.append(Label::LoopCond).append(Label::LoopBody).append(
                Label::LoopExit,
            ).emit(InstructionView::Branch { target: cond_block }).at(cond_block);
            match lower_condition(source, table, state, condition) {
                Err(error) => Err(error),
                Ok((state, operand)) => {
                    let state = state.emit(
                        InstructionView::ConditionalBranch {
                            condition: operand.value,
                            then_block: body_block,
                            else_block: exit_block,
                        },
                    ).at(body_block);
                    match lower_body(source, table, state, body, body.len() as nat) {
                        Err(error) => Err(error),
                        Ok(state) => Ok(
                            state.emit(InstructionView::Branch { target: cond_block }).at(
                                exit_block,
                            ),
                        ),
                    }
                },
            }
        },
    }
}

/// A function at its entry: no slots, one empty block, no variables.
pub open spec fn entry_state() -> Emitter {
    Emitter {
        slots: Seq::empty(),
        blocks: seq![BlockView { label: Label::Entry, instructions: Seq::empty() }],
        position: 0,
        variables: Map::empty(),
    }
}

/// The function after its first `n` parameters have been given a slot each,
/// stored there and bound to their names.
pub open spec fn bind_parameters(
    state: Emitter,
    parameters: Seq<Located<ArgumentDeclaration>>,
    n: nat,
) -> Emitter
    decreases n,
{
    if n == 0 || n > parameters.len() {
        state
    } else {
        let state = bind_parameters(state, parameters, (n - 1) as nat);
        let parameter = parameters[n - 1].value;
        let slot = state.slots.len() as usize;
        let ty = NativeType::spec_of(parameter.1.value);
        state.reserve(parameter.0.value@, ty).emit(
            InstructionView::StoreParameter { slot, parameter: (n - 1) as usize },
        ).bound(parameter.0.value@, Variable { slot, ty })
    }
}

/// The slots and blocks of a defined function: the parameters are stored on
/// entry, then the body is lowered.
pub open spec fn lower_function<'a>(
    source: Seq<char>,
    table: Map<Seq<char>, FunctionTableEntry<'a, ()>>,
    prototype: Prototype,
    body: Vec<Located<Statement>>,
) -> Result<Emitter, ErrorView> {
    lower_body(
        source,
        table,
        bind_parameters(entry_state(), prototype.arguments@, prototype.arguments.len() as nat),
        body,
        body.len() as nat,
    )
}

/// The parameters of a prototype as native parameters.
pub open spec fn parameters_of(arguments: Seq<Located<ArgumentDeclaration>>) -> Seq<SlotView> {
    Seq::new(
        arguments.len(),
        |i: int|
            SlotView {
                name: arguments[i].value.0.value@,
                ty: NativeType::spec_of(arguments[i].value.1.value),
            },
    )
}

/// The native function that declares a prototype: its name, its parameters
/// and its return type, and no body.
pub open spec fn signature_of(prototype: Prototype) -> FunctionView {
    FunctionView {
        name: prototype.name.value@,
        parameters: parameters_of(prototype.arguments@),
        return_type: NativeType::spec_of_return(prototype.return_type),
        slots: Seq::empty(),
        blocks: Seq::empty(),
    }
}

/// The declarations of the first `n` elements, in order.
pub open spec fn declared(elements: Seq<Located<FileElement>>, n: nat) -> Seq<FunctionView> {
    Seq::new(n, |i: int| signature_of(elements[i].value.spec_prototype().value))
}

/// The module after all elements have been declared and the first `n` of
/// them have been given their bodies.
pub open spec fn lower_elements<'a>(
    source: Seq<char>,
    table: Map<Seq<char>, FunctionTableEntry<'a, ()>>,
    elements: Seq<Located<FileElement>>,
    n: nat,
) -> Result<Seq<FunctionView>, ErrorView>
    decreases n,
{
    if n == 0 || n > elements.len() {
        Ok(declared(elements, elements.len()))
    } else {
        match lower_elements(source, table, elements, (n - 1) as nat) {
            Err(error) => Err(error),
            Ok(functions) => match elements[n - 1].value {
                FileElement::Declaration(_) => Ok(functions),
                FileElement::Definition { prototype, body } => match lower_function(
                    source,
                    table,
                    prototype.value,
                    body,
                ) {
                    Err(error) => Err(error),
                    Ok(state) => Ok(
                        functions.update(
                            n - 1,
                            FunctionView {
                                slots: state.slots,
                                blocks: state.blocks,
                                ..functions[n - 1]
                            },
                        ),
                    ),
                },
            },
        }
    }
}

/// The native module of a program. Every element is declared before any
/// body is lowered, so that a call finds its callee wherever in the program
/// the callee stands. Two elements of one name are an error.
pub open spec fn lower_program(source: Seq<char>, elements: Seq<Located<FileElement>>) -> Result<
    Seq<FunctionView>,
    ErrorView,
> {
    match table_of::<()>(source, elements) {
        Err(error) => Err(error),
        Ok(table) => lower_elements(source, table, elements, elements.len()),
    }
}

/// Once a body could not be lowered, the module cannot be completed.
pub proof fn lemma_lower_elements_error<'a>(
    source: Seq<char>,
    table: Map<Seq<char>, FunctionTableEntry<'a, ()>>,
    elements: Seq<Located<FileElement>>,
    n: nat,
    m: nat,
)
    requires
        n <= m <= elements.len(),
        lower_elements(source, table, elements, n) is Err,
    ensures
        lower_elements(source, table, elements, m) == lower_elements(source, table, elements, n),
    decreases m,
{
    if n < m {
        lemma_lower_elements_error(source, table, elements, n, (m - 1) as nat);
    }
}

/// Once a statement could not be lowered, the block cannot be.
pub proof fn lemma_lower_body_error<'a>(
    source: Seq<char>,
    table: Map<Seq<char>, FunctionTableEntry<'a, ()>>,
    state: Emitter,
    body: Vec<Located<Statement>>,
    n: nat,
    m: nat,
)
    requires
        n <= m <= body.len(),
        lower_body(source, table, state, body, n) is Err,
    ensures
        lower_body(source, table, state, body, m) == lower_body(source, table, state, body, n),
    decreases m,
{
    if n < m {
        lemma_lower_body_error(source, table, state, body, n, (m - 1) as nat);
    }
}

/// Once an argument could not be lowered, the arguments cannot be.
pub proof fn lemma_lower_arguments_error<'a>(
    source: Seq<char>,
    table: Map<Seq<char>, FunctionTableEntry<'a, ()>>,
    state: Emitter,
    arguments: Vec<Located<Expression>>,
    n: nat,
    m: nat,
)
    requires
        n <= m <= arguments.len(),
        lower_arguments(source, table, state, arguments, n) is Err,
    ensures
        lower_arguments(source, table, state, arguments, m) == lower_arguments(
            source,
            table,
            state,
            arguments,
            n,
        ),
    decreases m,
{
    if n < m {
        lemma_lower_arguments_error(source, table, state, arguments, n, (m - 1) as nat);
    }
}

/// A conditional or a loop whose condition is a number literal cannot be
/// lowered: it is a type error, whatever has been lowered before.
pub proof fn lemma_number_is_no_native_condition<'a>(
    source: Seq<char>,
    table: Map<Seq<char>, FunctionTableEntry<'a, ()>>,
    state: Emitter,
    statement: Located<Statement>,
)
    requires
        statement.value is While && statement.value->While_condition.value is NumberLiteral
            || statement.value is If && statement.value->If_condition.value is NumberLiteral,
    ensures
        lower_statement(source, table, state, statement) == Err::<Emitter, ErrorView>(
            ErrorView::TypeError {
                expected: "Bit"@,
                actual: "Number"@,
                src: source,
                expr_span: if statement.value is While {
                    statement.value->While_condition.span()
                } else {
                    statement.value->If_condition.span()
                },
                type_span: None,
            },
        ),
{
    if statement.value is While {
        let test = statement.value->While_condition;
        let cond_block = state.blocks.len() as usize;
        let entered = state.append(Label::LoopCond).append(Label::LoopBody).append(
            Label::LoopExit,
        ).emit(InstructionView::Branch { target: cond_block }).at(cond_block);
        assert(lower_expression(source, table, entered, test) is Ok);
        assert(lower_expression(source, table, entered, test)->Ok_0.1.ty == NativeType::Number);
    } else {
        let test = statement.value->If_condition;
        let entered = state.append(Label::Then).append(Label::Else).append(Label::IfCont);
        assert(lower_expression(source, table, entered, test) is Ok);
        assert(lower_expression(source, table, entered, test)->Ok_0.1.ty == NativeType::Number);
    }
}

/// What lowering an expression, the arguments of a call or a call keeps: the
/// slots, the variables, the number of blocks and the current block; every
/// block but the current one; and in the current block the instructions that
/// were there, which new ones follow.
pub open spec fn stays_in_block(before: Emitter, after: Emitter) -> bool {
    &&& after.slots == before.slots
    &&& after.variables == before.variables
    &&& after.position == before.position
    &&& after.blocks.len() == before.blocks.len()
    &&& forall|b: int|
        0 <= b < before.blocks.len() && b != before.position ==> after.blocks[b]
            == before.blocks[b]
    &&& after.blocks[before.position as int].label == before.blocks[before.position as int].label
    &&& before.blocks[before.position as int].instructions.is_prefix_of(
        after.blocks[before.position as int].instructions,
    )
}

/// An expression is lowered into the current block alone.
pub proof fn lemma_expression_stays_in_block<'a>(
    source: Seq<char>,
    table: Map<Seq<char>, FunctionTableEntry<'a, ()>>,
    state: Emitter,
    expression: Located<Expression>,
)
    requires
        state.position < state.blocks.len(),
        lower_expression(source, table, state, expression) is Ok,
    ensures
        stays_in_block(state, lower_expression(source, table, state, expression)->Ok_0.0),
        lower_expression(source, table, state, expression)->Ok_0.0.blocks[state.position as int].instructions.len()
            > state.blocks[state.position as int].instructions.len(),
    decreases expression, 0int,
{
    match expression.value {
        Expression::Call(name, arguments) => {
            lemma_arguments_stay_in_block(
                source,
                table,
                state,
                arguments,
                arguments.len() as nat,
            );
        },
        _ => {},
    }
}

/// The arguments of a call are lowered into the current block alone.
pub proof fn lemma_arguments_stay_in_block<'a>(
    source: Seq<char>,
    table: Map<Seq<char>, FunctionTableEntry<'a, ()>>,
    state: Emitter,
    arguments: Vec<Located<Expression>>,
    n: nat,
)
    requires
        state.position < state.blocks.len(),
        lower_arguments(source, table, state, arguments, n) is Ok,
    ensures
        stays_in_block(state, lower_arguments(source, table, state, arguments, n)->Ok_0.0),
    decreases arguments, n,
{
    if n != 0 && n <= arguments.len() {
        lemma_arguments_stay_in_block(source, table, state, arguments, (n - 1) as nat);
        let middle = lower_arguments(source, table, state, arguments, (n - 1) as nat)->Ok_0.0;
        lemma_expression_stays_in_block(source, table, middle, arguments[n - 1]);
    }
}

/// A conditional whose two branches each hold one statement, a return, is
/// lowered to three new blocks. The block of each branch ends in the return
/// followed by the branch to the third block, and the third block is empty:
/// no value arrives there to be merged.
pub proof fn lemma_returning_branches_do_not_merge<'a>(
    source: Seq<char>,
    table: Map<Seq<char>, FunctionTableEntry<'a, ()>>,
    state: Emitter,
    statement: Located<Statement>,
)
    requires
        state.position < state.blocks.len(),
        state.blocks.len() + 2 <= usize::MAX,
        statement.value is If,
        statement.value->If_true_body.len() == 1,
        statement.value->If_true_body[0].value is Return,
        statement.value->If_false_body.len() == 1,
        statement.value->If_false_body[0].value is Return,
        lower_statement(source, table, state, statement) is Ok,
    ensures
        ({
            let after = lower_statement(source, table, state, statement)->Ok_0;
            let then_block = state.blocks.len() as int;
            let else_block = then_block + 1;
            let cont_block = then_block + 2;
            let then_code = after.blocks[then_block].instructions;
            let else_code = after.blocks[else_block].instructions;
            &&& after.blocks.len() == state.blocks.len() + 3
            &&& after.position == cont_block
            &&& after.blocks[cont_block].instructions.len() == 0
            &&& then_code.len() >= 2
            &&& then_code[then_code.len() - 2] is Return
            &&& then_code.last() == (InstructionView::Branch { target: cont_block as usize })
            &&& else_code.len() >= 2
            &&& else_code[else_code.len() - 2] is Return
            &&& else_code.last() == (InstructionView::Branch { target: cont_block as usize })
        }),
{
    let test = statement.value->If_condition;
    let true_body = statement.value->If_true_body;
    let false_body = statement.value->If_false_body;
    let then_block = state.blocks.len() as usize;
    let else_block = (state.blocks.len() + 1) as usize;
    let cont_block = (state.blocks.len() + 2) as usize;
    let opened = state.append(Label::Then).append(Label::Else).append(Label::IfCont);
    lemma_expression_stays_in_block(source, table, opened, test);
    let (tested, operand) = lower_condition(source, table, opened, test)->Ok_0;
    let in_then = tested.emit(
        InstructionView::ConditionalBranch { condition: operand.value, then_block, else_block },
    ).at(then_block);
    assert(in_then.blocks[then_block as int].instructions.len() == 0);
    assert(in_then.blocks[else_block as int].instructions.len() == 0);
    assert(in_then.blocks[cont_block as int].instructions.len() == 0);

    reveal_with_fuel(lower_body, 2);
    let returned = true_body[0].value->Return_0;
    assert(lower_body(source, table, in_then, true_body, 1) == lower_statement(
        source,
        table,
        in_then,
        true_body[0],
    ));
    lemma_expression_stays_in_block(source, table, in_then, returned);
    let (valued, value) = lower_expression(source, table, in_then, returned)->Ok_0;
    let after_then = valued.emit(InstructionView::Return { value: value.value });
    assert(lower_body(source, table, in_then, true_body, 1) == Ok::<Emitter, ErrorView>(
        after_then,
    ));
    let in_else = after_then.emit(InstructionView::Branch { target: cont_block }).at(else_block);
    let then_code = in_else.blocks[then_block as int].instructions;
    assert(then_code.len() >= 2);
    assert(then_code[then_code.len() - 2] is Return);
    assert(in_else.blocks[else_block as int].instructions.len() == 0);
    assert(in_else.blocks[cont_block as int].instructions.len() == 0);

    let returned = false_body[0].value->Return_0;
    assert(lower_body(source, table, in_else, false_body, 1) == lower_statement(
        source,
        table,
        in_else,
        false_body[0],
    ));
    lemma_expression_stays_in_block(source, table, in_else, returned);
    let (valued, value) = lower_expression(source, table, in_else, returned)->Ok_0;
    let after_else = valued.emit(InstructionView::Return { value: value.value });
    assert(lower_body(source, table, in_else, false_body, 1) == Ok::<Emitter, ErrorView>(
        after_else,
    ));
    let after = after_else.emit(InstructionView::Branch { target: cont_block }).at(cont_block);
    assert(after.blocks[then_block as int] == in_else.blocks[then_block as int]);
    assert(after.blocks[cont_block as int].instructions.len() == 0);
    assert(lower_statement(source, table, state, statement) == Ok::<Emitter, ErrorView>(after));
}

} // verus!
