//! Lowering a program to a native module.
//!
//! The module has one function for each top-level element. All elements are
//! declared first, so that a call finds its callee wherever the callee
//! stands; then each definition is given its body.
use vstd::prelude::*;
use vstd::string::StringExecFns;
use crate::ast::{Expression, FileElement, Identifier, Located, Program, Prototype, Statement, Type};
use crate::error::{ErrorView, QKaledioscopeError};
use crate::interpreter::{FunctionTable, FunctionTableEntry, table_of};
use crate::lowering::{
    Emitter, Variable, bind_parameters, callee_type, declared, entry_state,
    lemma_lower_arguments_error, lemma_lower_body_error, lemma_lower_elements_error,
    lower_arguments, lower_body, lower_call, lower_condition, lower_elements, lower_expression,
    lower_program, lower_statement, parameters_of, signature_of,
};
use crate::native::{
    Block, FunctionView, Instruction, Label, NativeFunction, NativeModule, NativeType, Operand,
    Slot, ValueRef, blocks_view, slots_view,
};
use crate::table::Table;

verus! {

/// The state of a lowering: the program and its function table, the module
/// that is being filled, and the function that is under construction.
pub struct Compiler<'a> {
    source: &'a str,
    program: &'a Program,
    module: NativeModule,
    table: FunctionTable<'a, ()>,
    variables: Table<Variable>,
    fn_value_opt: Option<usize>,
    slots: Vec<Slot>,
    blocks: Vec<Block>,
    position: usize,
}

/// The outcome of lowering an expression, as a view.
pub open spec fn operand_view(
    result: Result<Operand, QKaledioscopeError>,
    state: Emitter,
) -> Result<(Emitter, Operand), ErrorView> {
    match result {
        Ok(operand) => Ok((state, operand)),
        Err(error) => Err(error@),
    }
}

/// The outcome of lowering a statement or a block, as a view.
pub open spec fn state_view(result: Result<(), QKaledioscopeError>, state: Emitter) -> Result<
    Emitter,
    ErrorView,
> {
    match result {
        Ok(_) => Ok(state),
        Err(error) => Err(error@),
    }
}

impl<'a> Compiler<'a> {
    /// The function under construction.
    pub closed spec fn emitter(&self) -> Emitter {
        Emitter {
            slots: slots_view(self.slots@),
            blocks: blocks_view(self.blocks@),
            position: self.position,
            variables: self.variables@,
        }
    }

    /// The functions of the program, by name.
    pub closed spec fn functions(&self) -> Map<Seq<char>, FunctionTableEntry<'a, ()>> {
        self.table@
    }

    /// The text of the program.
    pub closed spec fn source(&self) -> Seq<char> {
        self.source@
    }

    /// The elements of the program.
    pub closed spec fn elements(&self) -> Seq<Located<FileElement>> {
        self.program.0@
    }

    /// The functions of the module, as far as it has been filled.
    pub closed spec fn module(&self) -> Seq<FunctionView> {
        self.module@
    }

    /// Whether there is a block for instructions to go to.
    pub closed spec fn ready(&self) -> bool {
        self.position < self.blocks.len()
    }

    /// Whether all but the function under construction is as in `before`.
    pub closed spec fn same_context(&self, before: &Self) -> bool {
        &&& self.source == before.source
        &&& self.program == before.program
        &&& self.module == before.module
        &&& self.table == before.table
        &&& self.fn_value_opt == before.fn_value_opt
    }

    /// A compiler for a program, with nothing lowered yet. There is none for
    /// a program in which two elements have the same name.
    pub fn new(source: &'a str, program: &'a Program) -> (compiler: Result<
        Self,
        QKaledioscopeError,
    >)
        ensures
            match compiler {
                Ok(compiler) => {
                    &&& table_of::<()>(source@, program.0@) == Ok::<
                        Map<Seq<char>, FunctionTableEntry<'a, ()>>,
                        ErrorView,
                    >(compiler.functions())
                    &&& compiler.source() == source@
                    &&& compiler.elements() == program.0@
                    &&& compiler.module() == Seq::<FunctionView>::empty()
                    &&& compiler.fresh()
                },
                Err(error) => table_of::<()>(source@, program.0@) == Err::<
                    Map<Seq<char>, FunctionTableEntry<'a, ()>>,
                    ErrorView,
                >(error@),
            },
    {
        match FunctionTable::build(source, program) {
            Err(error) => Err(error),
            Ok(table) => {
                let compiler = Compiler {
                    source,
                    program,
                    module: NativeModule { functions: Vec::new() },
                    table,
                    variables: Table::new(),
                    fn_value_opt: None,
                    slots: Vec::new(),
                    blocks: Vec::new(),
                    position: 0,
                };
                assert(compiler.module@ =~= Seq::<FunctionView>::empty());
                Ok(compiler)
            },
        }
    }

    /// The native type of what the function of a name returns, if the name
    /// is a function of the program.
    fn get_function(&self, name: &Identifier) -> (return_type: Option<NativeType>)
        ensures
            return_type == callee_type(self.functions(), name@),
    {
        match self.table.get(name) {
            Some(FunctionTableEntry::Interpreted(element)) => Some(
                NativeType::of_return(&element.value.prototype().value.return_type),
            ),
            _ => None,
        }
    }

    /// The index in the module of the function under construction.
    fn fn_value(&self) -> (index: usize)
        requires
            self.fn_value_opt is Some,
        ensures
            Some(index) == self.fn_value_opt,
    {
        match self.fn_value_opt {
            Some(index) => index,
            None => 0,
        }
    }

    /// Adds an instruction at the end of the current block.
    fn emit(&mut self, instruction: Instruction) -> (value: ValueRef)
        requires
            old(self).ready(),
        ensures
            final(self).ready(),
            final(self).same_context(old(self)),
            final(self).emitter() == old(self).emitter().emit(instruction@),
            forall|ty: NativeType| #[trigger]
                old(self).emitter().next(ty) == (Operand { value, ty }),
    {
        let ghost before = self.emitter();
        let value = ValueRef {
            block: self.position,
            index: self.blocks[self.position].instructions.len(),
        };
        self.blocks[self.position].instructions.push(instruction);
        proof {
            assert(self.emitter().blocks[self.position as int].instructions
                =~= before.blocks[self.position as int].instructions.push(instruction@));
            assert(self.emitter().blocks =~= before.emit(instruction@).blocks);
        }
        value
    }

    /// Adds an empty block at the end of the function.
    fn append_basic_block(&mut self, label: Label) -> (index: usize)
        ensures
            old(self).ready() ==> final(self).ready(),
            final(self).same_context(old(self)),
            final(self).emitter() == old(self).emitter().append(label),
            index == old(self).emitter().blocks.len(),
    {
        let ghost before = self.emitter();
        let index = self.blocks.len();
        self.blocks.push(Block { label, instructions: Vec::new() });
        proof {
            assert(self.blocks@[index as int]@.instructions =~= Seq::empty());
            assert(self.emitter().blocks =~= before.append(label).blocks);
        }
        index
    }

    /// Lets the instructions that follow go to the end of a block.
    fn position_at_end(&mut self, block: usize)
        requires
            block < old(self).emitter().blocks.len(),
        ensures
            final(self).ready(),
            final(self).same_context(old(self)),
            final(self).emitter() == old(self).emitter().at(block),
    {
        self.position = block;
    }

    /// Reserves a stack slot at the entry of the function.
    fn create_entry_block_alloca(&mut self, name: &Identifier, ty: &Type) -> (slot: usize)
        ensures
            final(self).ready() == old(self).ready(),
            final(self).same_context(old(self)),
            final(self).emitter() == old(self).emitter().reserve(name@, NativeType::spec_of(*ty)),
            slot == old(self).emitter().slots.len(),
    {
        let ghost before = self.emitter();
        let slot = self.slots.len();
        self.slots.push(Slot { name: name.0.clone(), ty: NativeType::of(*ty) });
        proof {
            assert(self.emitter().slots =~= before.reserve(
                name@,
                NativeType::spec_of(*ty),
            ).slots);
        }
        slot
    }

    /// Binds a name to a stack slot.
    fn bind(&mut self, name: &Identifier, variable: Variable)
        ensures
            final(self).ready() == old(self).ready(),
            final(self).same_context(old(self)),
            final(self).emitter() == old(self).emitter().bound(name@, variable),
    {
        self.variables.insert(name.clone(), variable);
    }

    /// The variable that a name is bound to.
    fn variable(&self, name: &Identifier) -> (variable: Option<Variable>)
        ensures
            match variable {
                Some(variable) => self.emitter().variables.contains_key(name@)
                    && self.emitter().variables[name@] == variable,
                None => !self.emitter().variables.contains_key(name@),
            },
    {
        match self.variables.get(name) {
            Some(variable) => Some(*variable),
            None => None,
        }
    }
}

impl<'a> Compiler<'a> {
    /// Lowers a call: the callee is looked up, the arguments are lowered in
    /// order, and a call instruction is added.
    fn compile_call(
        &mut self,
        ident: &Located<Identifier>,
        arg_exprs: &Vec<Located<Expression>>,
    ) -> (operand: Result<Operand, QKaledioscopeError>)
        requires
            old(self).ready(),
        ensures
            operand is Ok ==> final(self).ready() && final(self).same_context(old(self))
                && final(self).emitter().blocks.len() >= old(self).emitter().blocks.len(),
            operand_view(operand, final(self).emitter()) == lower_call(
                old(self).source(),
                old(self).functions(),
                old(self).emitter(),
                *ident,
                *arg_exprs,
            ),
        decreases 0int, *arg_exprs, arg_exprs.len() + 1,
    {
        let return_type = match self.get_function(&ident.value) {
            Some(return_type) => return_type,
            None => {
                return Err(
                    QKaledioscopeError::UndefinedFunctionError {
                        name: ident.value.0.clone(),
                        src: String::from_str(self.source),
                        span: ident.as_sourcespan(),
                    },
                );
            },
        };
        let ghost source = self.source();
        let ghost table = self.functions();
        let ghost start = self.emitter();
        let ghost before = *self;
        let mut args: Vec<ValueRef> = Vec::new();
        let mut i: usize = 0;
        while i < arg_exprs.len()
            invariant
                i <= arg_exprs.len(),
                self.ready(),
                self.same_context(&before),
                source == before.source(),
                table == before.functions(),
                self.emitter().blocks.len() >= start.blocks.len(),
                before == *old(self),
                start == before.emitter(),
                callee_type(table, ident.value@) == Some(return_type),
                lower_arguments(source, table, start, *arg_exprs, i as nat) == Ok::<
                    (Emitter, Seq<ValueRef>),
                    ErrorView,
                >((self.emitter(), args@)),
            decreases arg_exprs.len() - i,
        {
            proof {
                vstd::std_specs::vec::axiom_vec_index_decreases(*arg_exprs, i as int);
                assert(decreases_to!(*arg_exprs => arg_exprs[i as int]));
            }
            match self.compile_expr(&arg_exprs[i]) {
                Ok(operand) => {
                    args.push(operand.value);
                },
                Err(error) => {
                    proof {
                        lemma_lower_arguments_error(
                            source,
                            table,
                            start,
                            *arg_exprs,
                            (i + 1) as nat,
                            arg_exprs.len() as nat,
                        );
                    }
                    return Err(error);
                },
            }
            i += 1;
        }
        let value = self.emit(
            Instruction::Call { callee: ident.value.0.clone(), arguments: args },
        );
        Ok(Operand { value, ty: return_type })
    }

    /// Lowers an expression to instructions at the end of the current block,
    /// and gives the value of the expression.
    fn compile_expr(&mut self, expr: &Located<Expression>) -> (operand: Result<
        Operand,
        QKaledioscopeError,
    >)
        requires
            old(self).ready(),
        ensures
            operand is Ok ==> final(self).ready() && final(self).same_context(old(self))
                && final(self).emitter().blocks.len() >= old(self).emitter().blocks.len(),
            operand_view(operand, final(self).emitter()) == lower_expression(
                old(self).source(),
                old(self).functions(),
                old(self).emitter(),
                *expr,
            ),
        decreases 0int, *expr, 0int,
    {
        match &expr.value {
            Expression::BitLiteral(b) => {
                let value = self.emit(Instruction::ConstBit(*b));
                Ok(Operand { value, ty: NativeType::Bit })
            },
            Expression::NumberLiteral(n) => {
                let value = self.emit(Instruction::ConstNumber(*n));
                Ok(Operand { value, ty: NativeType::Number })
            },
            Expression::QubitLiteral(q) => {
                let value = self.emit(Instruction::ConstQubit(*q));
                Ok(Operand { value, ty: NativeType::Qubit })
            },
            Expression::Identifier(ident) => {
                match self.variable(ident) {
                    Some(variable) => {
                        let value = self.emit(Instruction::Load { slot: variable.slot });
                        Ok(Operand { value, ty: variable.ty })
                    },
                    None => Err(
                        QKaledioscopeError::UndefinedVariableError {
                            name: ident.0.clone(),
                            src: String::from_str(self.source),
                            span: expr.as_sourcespan(),
                        },
                    ),
                }
            },
            Expression::Call(ident, arg_exprs) => {
                proof {
                    assert(decreases_to!(*expr => expr.value));
                    assert(decreases_to!(expr.value => *arg_exprs));
                }
                match self.compile_call(ident, arg_exprs) {
                    Err(error) => Err(error),
                    Ok(operand) => match operand.ty {
                        NativeType::Void => Err(
                            QKaledioscopeError::MissingValueError {
                                name: ident.value.0.clone(),
                                src: String::from_str(self.source),
                                span: expr.as_sourcespan(),
                            },
                        ),
                        _ => Ok(operand),
                    },
                }
            },
        }
    }

    /// Lowers the condition of a conditional or a loop, which has to be a
    /// bit.
    fn compile_condition(&mut self, test: &Located<Expression>) -> (operand: Result<
        Operand,
        QKaledioscopeError,
    >)
        requires
            old(self).ready(),
        ensures
            operand is Ok ==> final(self).ready() && final(self).same_context(old(self))
                && final(self).emitter().blocks.len() >= old(self).emitter().blocks.len(),
            operand_view(operand, final(self).emitter()) == lower_condition(
                old(self).source(),
                old(self).functions(),
                old(self).emitter(),
                *test,
            ),
    {
        match self.compile_expr(test) {
            Err(error) => Err(error),
            Ok(operand) => match operand.ty {
                NativeType::Bit => Ok(operand),
                _ => Err(
                    QKaledioscopeError::TypeError {
                        expected: String::from_str(NativeType::Bit.name()),
                        actual: String::from_str(operand.ty.name()),
                        src: String::from_str(self.source),
                        expr_span: test.as_sourcespan(),
                        type_span: None,
                    },
                ),
            },
        }
    }

    /// Lowers the statements of a block in order.
    fn compile_body(&mut self, body: &Vec<Located<Statement>>) -> (done: Result<
        (),
        QKaledioscopeError,
    >)
        requires
            old(self).ready(),
        ensures
            done is Ok ==> final(self).ready() && final(self).same_context(old(self))
                && final(self).emitter().blocks.len() >= old(self).emitter().blocks.len(),
            state_view(done, final(self).emitter()) == lower_body(
                old(self).source(),
                old(self).functions(),
                old(self).emitter(),
                *body,
                body.len() as nat,
            ),
        decreases 1int, *body, body.len(),
    {
        let ghost source = self.source();
        let ghost table = self.functions();
        let ghost start = self.emitter();
        let ghost before = *self;
        let mut i: usize = 0;
        while i < body.len()
            invariant
                i <= body.len(),
                self.ready(),
                self.same_context(&before),
                source == before.source(),
                table == before.functions(),
                self.emitter().blocks.len() >= start.blocks.len(),
                before == *old(self),
                start == before.emitter(),
                lower_body(source, table, start, *body, i as nat) == Ok::<Emitter, ErrorView>(
                    self.emitter(),
                ),
            decreases body.len() - i,
        {
            proof {
                vstd::std_specs::vec::axiom_vec_index_decreases(*body, i as int);
                assert(decreases_to!(*body => body[i as int]));
            }
            match self.compile_statement(&body[i]) {
                Ok(_) => {},
                Err(error) => {
                    proof {
                        lemma_lower_body_error(
                            source,
                            table,
                            start,
                            *body,
                            (i + 1) as nat,
                            body.len() as nat,
                        );
                    }
                    return Err(error);
                },
            }
            i += 1;
        }
        Ok(())
    }

    /// Lowers a statement.
    fn compile_statement(&mut self, stmt: &Located<Statement>) -> (done: Result<
        (),
        QKaledioscopeError,
    >)
        requires
            old(self).ready(),
        ensures
            done is Ok ==> final(self).ready() && final(self).same_context(old(self))
                && final(self).emitter().blocks.len() >= old(self).emitter().blocks.len(),
            state_view(done, final(self).emitter()) == lower_statement(
                old(self).source(),
                old(self).functions(),
                old(self).emitter(),
                *stmt,
            ),
        decreases 1int, *stmt, 0int,
    {
        match &stmt.value {
            Statement::VariableDeclaration(ident, ty, rhs) => {
                let slot = self.create_entry_block_alloca(&ident.value, &ty.value);
                let operand = match self.compile_expr(rhs) {
                    Ok(operand) => operand,
                    Err(error) => { return Err(error); },
                };
                self.emit(Instruction::Store { slot, value: operand.value });
                self.bind(&ident.value, Variable { slot, ty: NativeType::of(ty.value) });
                Ok(())
            },
            Statement::Assignment(ident, rhs) => {
                let variable = match self.variable(&ident.value) {
                    Some(variable) => variable,
                    None => {
                        return Err(
                            QKaledioscopeError::UndefinedVariableError {
                                name: ident.value.0.clone(),
                                src: String::from_str(self.source),
                                span: ident.as_sourcespan(),
                            },
                        );
                    },
                };
                let operand = match self.compile_expr(rhs) {
                    Ok(operand) => operand,
                    Err(error) => { return Err(error); },
                };
                self.emit(Instruction::Store { slot: variable.slot, value: operand.value });
                Ok(())
            },
            Statement::Call(ident, args) => {
                match self.compile_call(ident, args) {
                    Ok(_) => Ok(()),
                    Err(error) => Err(error),
                }
            },
            Statement::Return(expr) => {
                let operand = match self.compile_expr(expr) {
                    Ok(operand) => operand,
                    Err(error) => { return Err(error); },
                };
                self.emit(Instruction::Return { value: operand.value });
                Ok(())
            },
            Statement::If { condition, true_body, false_body } => {
                let then_bb = self.append_basic_block(Label::Then);
                let else_bb = self.append_basic_block(Label::Else);
                let cont_bb = self.append_basic_block(Label::IfCont);
                let cond = match self.compile_condition(condition) {
                    Ok(cond) => cond,
                    Err(error) => { return Err(error); },
                };
                self.emit(
                    Instruction::ConditionalBranch {
                        condition: cond.value,
                        then_block: then_bb,
                        else_block: else_bb,
                    },
                );
                proof {
                    assert(decreases_to!(*stmt => stmt.value));
                    assert(decreases_to!(stmt.value => *true_body));
                    assert(decreases_to!(stmt.value => *false_body));
                }
                self.position_at_end(then_bb);
                match self.compile_body(true_body) {
                    Ok(_) => {},
                    Err(error) => { return Err(error); },
                }
                self.emit(Instruction::Branch { target: cont_bb });
                self.position_at_end(else_bb);
                match self.compile_body(false_body) {
                    Ok(_) => {},
                    Err(error) => { return Err(error); },
                }
                self.emit(Instruction::Branch { target: cont_bb });
                self.position_at_end(cont_bb);
                Ok(())
            },
            Statement::While { condition, body } => {
                let cond_bb = self.append_basic_block(Label::LoopCond);
                let body_bb = self.append_basic_block(Label::LoopBody);
                let exit_bb = self.append_basic_block(Label::LoopExit);
                self.emit(Instruction::Branch { target: cond_bb });
                self.position_at_end(cond_bb);
                let cond = match self.compile_condition(condition) {
                    Ok(cond) => cond,
                    Err(error) => { return Err(error); },
                };
                self.emit(
                    Instruction::ConditionalBranch {
                        condition: cond.value,
                        then_block: body_bb,
                        else_block: exit_bb,
                    },
                );
                proof {
                    assert(decreases_to!(*stmt => stmt.value));
                    assert(decreases_to!(stmt.value => *body));
                }
                self.position_at_end(body_bb);
                match self.compile_body(body) {
                    Ok(_) => {},
                    Err(error) => { return Err(error); },
                }
                self.emit(Instruction::Branch { target: cond_bb });
                self.position_at_end(exit_bb);
                Ok(())
            },
        }
    }
}

impl<'a> Compiler<'a> {
    /// Whether nothing has been lowered yet.
    pub closed spec fn fresh(&self) -> bool {
        &&& self.module@ == Seq::<FunctionView>::empty()
        &&& table_of::<()>(self.source@, self.program.0@) == Ok::<
            Map<Seq<char>, FunctionTableEntry<'a, ()>>,
            ErrorView,
        >(self.table@)
    }

    /// Declares a function in the module: its name, its parameters and its
    /// return type.
    fn compile_prototype(&mut self, proto: &Prototype)
        ensures
            final(self).module() == old(self).module().push(signature_of(*proto)),
            final(self).source == old(self).source,
            final(self).program == old(self).program,
            final(self).table == old(self).table,
    {
        let mut parameters: Vec<Slot> = Vec::new();
        let mut i: usize = 0;
        while i < proto.arguments.len()
            invariant
                i <= proto.arguments.len(),
                parameters@.len() == i,
                slots_view(parameters@) == parameters_of(proto.arguments@).take(i as int),
            decreases proto.arguments.len() - i,
        {
            let ghost before = slots_view(parameters@);
            let argument = &proto.arguments[i].value;
            parameters.push(
                Slot { name: argument.0.value.0.clone(), ty: NativeType::of(argument.1.value) },
            );
            proof {
                let expected = parameters_of(proto.arguments@).take(i + 1);
                assert forall|j: int| 0 <= j < i + 1 implies slots_view(parameters@)[j]
                    == expected[j] by {
                    if j < i {
                        assert(slots_view(parameters@)[j] == before[j]);
                    }
                }
                assert(slots_view(parameters@) =~= expected);
            }
            i += 1;
        }
        let ghost module = self.module@;
        let function = NativeFunction {
            name: proto.name.value.0.clone(),
            parameters,
            return_type: NativeType::of_return(&proto.return_type),
            slots: Vec::new(),
            blocks: Vec::new(),
        };
        proof {
            assert(parameters_of(proto.arguments@).take(i as int) == parameters_of(
                proto.arguments@,
            ));
            assert(function@.slots =~= Seq::empty());
            assert(function@.blocks =~= Seq::empty());
        }
        self.module.functions.push(function);
        proof {
            assert(self.module@ =~= module.push(signature_of(*proto)));
        }
    }

    /// Opens the body of the function of this index in the module: the
    /// function has its entry block and nothing else, and each parameter is
    /// stored in a slot of its own and bound to its name.
    fn enter_function(&mut self, index: usize, prototype: &Prototype)
        ensures
            final(self).ready(),
            final(self).entered() == Some(index),
            final(self).emitter() == bind_parameters(
                entry_state(),
                prototype.arguments@,
                prototype.arguments.len() as nat,
            ),
            final(self).module == old(self).module,
            final(self).source == old(self).source,
            final(self).program == old(self).program,
            final(self).table == old(self).table,
    {
        self.fn_value_opt = Some(index);
        self.slots = Vec::new();
        self.blocks = Vec::new();
        self.variables = Table::new();
        self.position = 0;
        proof {
            assert(self.emitter().slots =~= Seq::empty());
            assert(self.emitter().blocks =~= Seq::empty());
        }
        let entry = self.append_basic_block(Label::Entry);
        self.position_at_end(entry);
        proof {
            assert(self.emitter().blocks =~= entry_state().blocks);
            assert(self.emitter().slots =~= entry_state().slots);
        }
        let ghost before = *self;
        let mut i: usize = 0;
        while i < prototype.arguments.len()
            invariant
                i <= prototype.arguments.len(),
                self.ready(),
                self.same_context(&before),
                self.emitter() == bind_parameters(entry_state(), prototype.arguments@, i as nat),
            decreases prototype.arguments.len() - i,
        {
            let argument = &prototype.arguments[i].value;
            let slot = self.create_entry_block_alloca(&argument.0.value, &argument.1.value);
            self.emit(Instruction::StoreParameter { slot, parameter: i });
            self.bind(&argument.0.value, Variable { slot, ty: NativeType::of(argument.1.value) });
            i += 1;
        }
    }

    /// The index in the module of the function under construction, if one
    /// is.
    pub closed spec fn entered(&self) -> Option<usize> {
        self.fn_value_opt
    }

    /// Closes the body of the function under construction: its slots and
    /// blocks become those of its function in the module.
    fn leave_function(&mut self)
        requires
            old(self).entered() is Some,
            old(self).entered()->Some_0 < old(self).module().len(),
        ensures
            final(self).module() == old(self).module().update(
                old(self).entered()->Some_0 as int,
                FunctionView {
                    slots: old(self).emitter().slots,
                    blocks: old(self).emitter().blocks,
                    ..old(self).module()[old(self).entered()->Some_0 as int]
                },
            ),
            final(self).source == old(self).source,
            final(self).program == old(self).program,
            final(self).table == old(self).table,
    {
        let index = self.fn_value();
        let ghost module = self.module@;
        let ghost state = self.emitter();
        let mut slots: Vec<Slot> = Vec::new();
        let mut blocks: Vec<Block> = Vec::new();
        core::mem::swap(&mut slots, &mut self.slots);
        core::mem::swap(&mut blocks, &mut self.blocks);
        self.module.functions[index].slots = slots;
        self.module.functions[index].blocks = blocks;
        proof {
            assert(self.module@ =~= module.update(
                index as int,
                FunctionView { slots: state.slots, blocks: state.blocks, ..module[index as int] },
            ));
        }
    }

    /// Lowers the program into the module: first every element is declared,
    /// then every definition is given its body.
    pub fn compile(&mut self) -> (done: Result<(), QKaledioscopeError>)
        requires
            old(self).fresh(),
        ensures
            match done {
                Ok(_) => lower_program(old(self).source(), old(self).elements()) == Ok::<
                    Seq<FunctionView>,
                    ErrorView,
                >(final(self).module()),
                Err(error) => lower_program(old(self).source(), old(self).elements()) == Err::<
                    Seq<FunctionView>,
                    ErrorView,
                >(error@),
            },
    {
        let ghost source = self.source@;
        let ghost elements = self.program.0@;
        let ghost table = self.table@;
        let program = self.program;
        let n = program.0.len();
        let mut i: usize = 0;
        proof {
            assert(self.module@ =~= declared(elements, 0));
        }
        while i < n
            invariant
                i <= n,
                n == program.0.len(),
                program.0@ == elements,
                self.source@ == source,
                self.program == program,
                self.table@ == table,
                self.module@ == declared(elements, i as nat),
            decreases n - i,
        {
            self.compile_prototype(&program.0[i].value.prototype().value);
            proof {
                assert(self.module@ =~= declared(elements, (i + 1) as nat));
            }
            i += 1;
        }
        let mut i: usize = 0;
        while i < n
            invariant
                i <= n,
                n == program.0.len(),
                program.0@ == elements,
                self.source@ == source,
                self.program == program,
                self.table@ == table,
                source == old(self).source(),
                elements == old(self).elements(),
                table_of::<()>(source, elements) == Ok::<
                    Map<Seq<char>, FunctionTableEntry<'a, ()>>,
                    ErrorView,
                >(table),
                lower_elements(source, table, elements, i as nat) == Ok::<
                    Seq<FunctionView>,
                    ErrorView,
                >(self.module@),
                self.module@.len() == n,
            decreases n - i,
        {
            match &program.0[i].value {
                FileElement::Declaration(_) => {},
                FileElement::Definition { body, prototype } => {
                    self.enter_function(i, &prototype.value);
                    match self.compile_body(body) {
                        Ok(_) => {},
                        Err(error) => {
                            proof {
                                lemma_lower_elements_error(
                                    source,
                                    table,
                                    elements,
                                    (i + 1) as nat,
                                    n as nat,
                                );
                            }
                            return Err(error);
                        },
                    }
                    self.leave_function();
                },
            }
            i += 1;
        }
        Ok(())
    }

    /// The module, as far as it has been filled.
    pub fn into_module(self) -> (module: NativeModule)
        ensures
            module@ == self.module(),
    {
        self.module
    }
}

/// Lowers a program to a native module.
pub fn compile(source: &str, program: &Program) -> (module: Result<
    NativeModule,
    QKaledioscopeError,
>)
    ensures
        match module {
            Ok(module) => lower_program(source@, program.0@) == Ok::<
                Seq<FunctionView>,
                ErrorView,
            >(module@),
            Err(error) => lower_program(source@, program.0@) == Err::<
                Seq<FunctionView>,
                ErrorView,
            >(error@),
        },
{
    let mut compiler = match Compiler::new(source, program) {
        Ok(compiler) => compiler,
        Err(error) => {
            return Err(error);
        },
    };
    match compiler.compile() {
        Ok(_) => Ok(compiler.into_module()),
        Err(error) => Err(error),
    }
}

} // verus!
