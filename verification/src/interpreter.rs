//! Execution: a scoped engine interpreting an instruction sequence against a
//! stack of variable frames.
//!
//! Entering any block (an `if` or `else` branch, one `while` iteration, a
//! bare scope) pushes a fresh frame, and the frame is popped on every exit
//! path: normal fall-through, `break`, or a propagated error. Reads search
//! the frames innermost to outermost. Writes overwrite an existing binding
//! in the frame where it lives, however deeply nested; a name bound nowhere
//! is created in the outermost (global) frame, never in the current one.
//! `break` ends the nearest enclosing `while` loop; outside any loop it ends
//! the instruction sequence it stands in.
use crate::number::{spec_num_display, Number};
use crate::parser::{instr_view, instrs_view, lemma_instrs_view_points, value_view, InstrModel, Instruction, Value, ValueModel};
use crate::tokenizer::Operator;
use vstd::prelude::*;

verus! {

broadcast use vstd::seq::axiom_seq_index_decreases, vstd::seq::axiom_seq_subrange_decreases, vstd::std_specs::vec::axiom_vec_decreases_to_view;

#[derive(Debug, Clone)]
pub enum InterpreterError {
    VariableNotDefined(String),
    TypeMismatch(String),
}

pub enum InterpreterErrorModel {
    VariableNotDefined(Seq<char>),
    TypeMismatch(Seq<char>),
}

impl DeepView for InterpreterError {
    type V = InterpreterErrorModel;

    open spec fn deep_view(&self) -> InterpreterErrorModel {
        match self {
            InterpreterError::VariableNotDefined(s) => InterpreterErrorModel::VariableNotDefined(
                s@,
            ),
            InterpreterError::TypeMismatch(s) => InterpreterErrorModel::TypeMismatch(s@),
        }
    }
}

/// A runtime value: the result of evaluating an expression.
#[derive(Debug)]
pub enum Data {
    Number(Number),
    String(String),
    Boolean(bool),
}

pub enum DataModel {
    Number(Number),
    StrLit(Seq<char>),
    Boolean(bool),
}

impl DeepView for Data {
    type V = DataModel;

    open spec fn deep_view(&self) -> DataModel {
        match self {
            Data::Number(n) => DataModel::Number(*n),
            Data::String(s) => DataModel::StrLit(s@),
            Data::Boolean(b) => DataModel::Boolean(*b),
        }
    }
}

impl Data {
    /// A structural copy: variables hold no aliases, every read clones.
    pub fn duplicate(&self) -> (r: Data)
        ensures
            r.deep_view() == self.deep_view(),
    {
        match self {
            Data::Number(n) => Data::Number(*n),
            Data::String(s) => Data::String(s.clone()),
            Data::Boolean(b) => Data::Boolean(*b),
        }
    }
}

/// The text that printing a value produces: a number's literal text, a
/// string itself, `true` or `false` for a boolean.
pub open spec fn spec_data_display(d: DataModel) -> Seq<char> {
    match d {
        DataModel::Number(n) => spec_num_display(n),
        DataModel::StrLit(s) => s,
        DataModel::Boolean(b) => if b {
            "true"@
        } else {
            "false"@
        },
    }
}

/// A scoped mapping of variable names to runtime values; keys are unique.
#[derive(Debug)]
pub struct StackFrame {
    pub variables: Vec<(String, Data)>,
}

/// The mathematical content of an association list: a map from names to
/// values (later entries override, though well-formed frames never repeat a
/// key).
pub open spec fn assoc_map(s: Seq<(String, Data)>) -> Map<Seq<char>, DataModel>
    decreases s.len(),
{
    if s.len() == 0 {
        Map::empty()
    } else {
        assoc_map(s.drop_last()).insert(s.last().0@, s.last().1.deep_view())
    }
}

pub open spec fn keys_unique(s: Seq<(String, Data)>) -> bool {
    forall|i: int, j: int| 0 <= i < j < s.len() ==> s[i].0@ != s[j].0@
}

pub open spec fn frame_view(f: StackFrame) -> Map<Seq<char>, DataModel> {
    assoc_map(f.variables@)
}

pub open spec fn frame_wf(f: StackFrame) -> bool {
    keys_unique(f.variables@)
}

proof fn lemma_assoc_map_props(s: Seq<(String, Data)>)
    ensures
        forall|k: Seq<char>|
            #[trigger] assoc_map(s).contains_key(k) <==> exists|i: int|
                0 <= i < s.len() && s[i].0@ == k,
        forall|i: int|
            0 <= i < s.len() && (forall|j: int| i < j < s.len() ==> s[j].0@ != s[i].0@)
                ==> assoc_map(s).contains_key(#[trigger] s[i].0@) && assoc_map(s)[s[i].0@]
                == s[i].1.deep_view(),
    decreases s.len(),
{
    if s.len() > 0 {
        lemma_assoc_map_props(s.drop_last());
        assert forall|k: Seq<char>| #[trigger]
            assoc_map(s).contains_key(k) implies exists|i: int|
            0 <= i < s.len() && s[i].0@ == k by {
            if s.last().0@ == k {
                assert(s[s.len() - 1].0@ == k);
            } else {
                assert(assoc_map(s) == assoc_map(s.drop_last()).insert(
                    s.last().0@,
                    s.last().1.deep_view(),
                ));
                assert(assoc_map(s.drop_last()).contains_key(k));
                let i = choose|i: int| 0 <= i < s.drop_last().len() && s.drop_last()[i].0@ == k;
                assert(s.drop_last()[i] == s[i]);
                assert(s[i].0@ == k);
            }
        }
        assert forall|k: Seq<char>|
            (exists|i: int| 0 <= i < s.len() && s[i].0@ == k) implies #[trigger] assoc_map(
            s,
        ).contains_key(k) by {
            let i = choose|i: int| 0 <= i < s.len() && s[i].0@ == k;
            if i == s.len() - 1 {
                assert(assoc_map(s).contains_key(s.last().0@));
            } else {
                assert(s.drop_last()[i] == s[i]);
                assert(s.drop_last()[i].0@ == k);
                assert(assoc_map(s.drop_last()).contains_key(k));
            }
        }
        assert forall|i: int|
            0 <= i < s.len() && (forall|j: int| i < j < s.len() ==> s[j].0@ != s[i].0@) implies
            assoc_map(s).contains_key(#[trigger] s[i].0@) && assoc_map(s)[s[i].0@]
                == s[i].1.deep_view() by {
            if i == s.len() - 1 {
            } else {
                assert(s[s.len() - 1].0@ != s[i].0@);
                assert(s.drop_last()[i] == s[i]);
                assert(forall|j: int|
                    i < j < s.drop_last().len() ==> s.drop_last()[j].0@ != s.drop_last()[i].0@);
            }
        }
    }
}

/// Overwriting the entry at `i` in place changes the map at that key alone.
proof fn lemma_assoc_map_update(s: Seq<(String, Data)>, i: int, d: Data)
    requires
        keys_unique(s),
        0 <= i < s.len(),
    ensures
        keys_unique(s.update(i, (s[i].0, d))),
        assoc_map(s.update(i, (s[i].0, d))) == assoc_map(s).insert(s[i].0@, d.deep_view()),
    decreases s.len(),
{
    let s2 = s.update(i, (s[i].0, d));
    assert(keys_unique(s2));
    if i == s.len() - 1 {
        assert(s2.drop_last() =~= s.drop_last());
        assert(assoc_map(s2) =~= assoc_map(s).insert(s[i].0@, d.deep_view()));
    } else {
        lemma_assoc_map_update(s.drop_last(), i, d);
        assert(s2.drop_last() =~= s.drop_last().update(i, (s[i].0, d)));
        assert(s2.last() == s.last());
        assert(s.drop_last()[i] == s[i]);
        assert(s[s.len() - 1].0@ != s[i].0@);
        assert(assoc_map(s2) == assoc_map(s.drop_last()).insert(s[i].0@, d.deep_view()).insert(
            s.last().0@,
            s.last().1.deep_view(),
        ));
        assert(assoc_map(s2) =~= assoc_map(s).insert(s[i].0@, d.deep_view()));
    }
}

/// Appending a fresh key adds exactly that binding.
proof fn lemma_assoc_map_push(s: Seq<(String, Data)>, name: String, d: Data)
    requires
        keys_unique(s),
        forall|i: int| 0 <= i < s.len() ==> s[i].0@ != name@,
    ensures
        keys_unique(s.push((name, d))),
        assoc_map(s.push((name, d))) == assoc_map(s).insert(name@, d.deep_view()),
{
    let s2 = s.push((name, d));
    assert forall|i: int, j: int| 0 <= i < j < s2.len() implies s2[i].0@ != s2[j].0@ by {
        if j < s2.len() - 1 {
            assert(s2[i] == s[i] && s2[j] == s[j]);
        } else {
            assert(s2[i] == s[i]);
        }
    }
    assert(s2.drop_last() =~= s);
}

/// The full observable state of an execution: the frame stack (index 0 is
/// the outermost, global frame; the last is the innermost), the input lines
/// not yet read, and the output lines printed so far.
pub struct StateModel {
    pub frames: Seq<Map<Seq<char>, DataModel>>,
    pub input: Seq<Seq<char>>,
    pub output: Seq<Seq<char>>,
}

/// Variable read resolution: search the frames innermost to outermost and
/// return the first binding found.
pub open spec fn lookup_frames(fs: Seq<Map<Seq<char>, DataModel>>, name: Seq<char>) -> Option<
    DataModel,
>
    decreases fs.len(),
{
    if fs.len() == 0 {
        None
    } else if fs.last().contains_key(name) {
        Some(fs.last()[name])
    } else {
        lookup_frames(fs.drop_last(), name)
    }
}

/// Variable write resolution: an existing binding is overwritten in the
/// frame where it lives; a name bound nowhere is created in the outermost
/// (global) frame.
pub open spec fn assign_frames(
    fs: Seq<Map<Seq<char>, DataModel>>,
    name: Seq<char>,
    d: DataModel,
) -> Seq<Map<Seq<char>, DataModel>>
    decreases fs.len(),
{
    if fs.len() == 0 {
        fs
    } else if fs.last().contains_key(name) {
        fs.update(fs.len() - 1, fs.last().insert(name, d))
    } else if fs.len() == 1 {
        fs.update(0, fs[0].insert(name, d))
    } else {
        assign_frames(fs.drop_last(), name, d).push(fs.last())
    }
}


pub proof fn lemma_assign_frames_len(
    fs: Seq<Map<Seq<char>, DataModel>>,
    name: Seq<char>,
    d: DataModel,
)
    ensures
        assign_frames(fs, name, d).len() == fs.len(),
    decreases fs.len(),
{
    if fs.len() > 1 && !fs.last().contains_key(name) {
        lemma_assign_frames_len(fs.drop_last(), name, d);
    }
}

/// Assignment to an existing variable never shadows: where frame `i` holds
/// the binding and no inner frame does, the write mutates frame `i` in
/// place.
pub proof fn lemma_assign_frames_found(
    fs: Seq<Map<Seq<char>, DataModel>>,
    name: Seq<char>,
    d: DataModel,
    i: int,
)
    requires
        0 <= i < fs.len(),
        fs[i].contains_key(name),
        forall|j: int| i < j < fs.len() ==> !(#[trigger] fs[j]).contains_key(name),
    ensures
        assign_frames(fs, name, d) == fs.update(i, fs[i].insert(name, d)),
    decreases fs.len(),
{
    if i == fs.len() - 1 {
    } else {
        assert(!fs.last().contains_key(name));
        assert(fs.len() > 1);
        assert(fs.drop_last()[i] == fs[i]);
        assert(forall|j: int|
            i < j < fs.drop_last().len() ==> !(#[trigger] fs.drop_last()[j]).contains_key(name));
        lemma_assign_frames_found(fs.drop_last(), name, d, i);
        assert(assign_frames(fs, name, d) == fs.drop_last().update(i, fs[i].insert(name, d)).push(
            fs.last(),
        ));
        assert(fs.drop_last().update(i, fs[i].insert(name, d)).push(fs.last()) =~= fs.update(
            i,
            fs[i].insert(name, d),
        ));
    }
}

/// A name bound in no frame is created in the outermost (global) frame,
/// never in the current innermost one.
pub proof fn lemma_assign_frames_fresh(
    fs: Seq<Map<Seq<char>, DataModel>>,
    name: Seq<char>,
    d: DataModel,
)
    requires
        fs.len() >= 1,
        forall|j: int| 0 <= j < fs.len() ==> !(#[trigger] fs[j]).contains_key(name),
    ensures
        assign_frames(fs, name, d) == fs.update(0, fs[0].insert(name, d)),
    decreases fs.len(),
{
    if fs.len() == 1 {
    } else {
        assert(fs.drop_last()[0] == fs[0]);
        lemma_assign_frames_fresh(fs.drop_last(), name, d);
        assert(fs.drop_last().update(0, fs[0].insert(name, d)).push(fs.last()) =~= fs.update(
            0,
            fs[0].insert(name, d),
        ));
    }
}

pub open spec fn frames_view(s: Seq<StackFrame>) -> Seq<Map<Seq<char>, DataModel>> {
    Seq::new(s.len(), |i: int| frame_view(s[i]))
}

/// The execution engine: it owns the frame stack, the input lines handed to
/// it, and the output lines it produces.
#[derive(Debug)]
pub struct VM {
    pub frames: Vec<StackFrame>,
    pub input: Vec<String>,
    pub input_pos: usize,
    pub output: Vec<String>,
}

impl StackFrame {
    pub fn empty() -> (r: Self)
        ensures
            frame_wf(r),
            frame_view(r) == Map::<Seq<char>, DataModel>::empty(),
    {
        let r = StackFrame { variables: Vec::new() };
        proof {
            assert(frame_view(r) =~= Map::<Seq<char>, DataModel>::empty());
        }
        r
    }
}

/// The index of `name` in the frame, or `None` where the frame binds no such
/// name.
fn frame_find(f: &StackFrame, name: &String) -> (r: Option<usize>)
    requires
        frame_wf(*f),
    ensures
        match r {
            Some(i) => i < f.variables@.len() && f.variables@[i as int].0@ == name@,
            None => !frame_view(*f).contains_key(name@),
        },
{
    let n = f.variables.len();
    let mut i: usize = 0;
    while i < n
        invariant
            i <= n == f.variables@.len(),
            forall|j: int| 0 <= j < i ==> f.variables@[j].0@ != name@,
        decreases n - i,
    {
        if f.variables[i].0 == *name {
            return Some(i);
        }
        i = i + 1;
    }
    proof {
        lemma_assoc_map_props(f.variables@);
    }
    None
}

impl VM {
    /// The frame stack, remaining input and produced output, mathematically.
    pub open spec fn state(self) -> StateModel {
        StateModel {
            frames: frames_view(self.frames@),
            input: self.input@.subrange(self.input_pos as int, self.input@.len() as int)
                .map_values(|s: String| s@),
            output: self.output@.map_values(|s: String| s@),
        }
    }

    pub open spec fn wf(self) -> bool {
        self.input_pos <= self.input@.len() && forall|i: int|
            0 <= i < self.frames@.len() ==> frame_wf(#[trigger] self.frames@[i])
    }

    /// A fresh engine: one empty global frame, the given input, no output.
    pub fn new(input: Vec<String>) -> (r: VM)
        ensures
            r.wf(),
            r.frames@.len() == 1,
            r.state().frames =~= seq![Map::<Seq<char>, DataModel>::empty()],
            r.state().input =~= input@.map_values(|s: String| s@),
            r.state().output =~= Seq::<Seq<char>>::empty(),
    {
        let mut frames: Vec<StackFrame> = Vec::new();
        frames.push(StackFrame::empty());
        let r = VM { frames, input, input_pos: 0, output: Vec::new() };
        proof {
            assert(r.input@.subrange(0, r.input@.len() as int) =~= r.input@);
        }
        r
    }

    /// Variable read: innermost frame first; `None` where no frame binds the
    /// name.
    pub fn get_variable(&self, name: &String) -> (r: Option<Data>)
        requires
            self.wf(),
        ensures
            match r {
                Some(d) => lookup_frames(self.state().frames, name@) == Some(d.deep_view()),
                None => lookup_frames(self.state().frames, name@) is None,
            },
    {
        let ghost fs = self.state().frames;
        let n = self.frames.len();
        let mut i: usize = n;
        proof {
            assert(fs.subrange(0, n as int) =~= fs);
        }
        while i > 0
            invariant
                i <= n == self.frames@.len(),
                self.wf(),
                fs == frames_view(self.frames@),
                lookup_frames(fs, name@) == lookup_frames(
                    fs.subrange(0, i as int),
                    name@,
                ),
            decreases i,
        {
            let ghost pre = fs.subrange(0, i as int);
            proof {
                assert(pre.last() == fs[i - 1]);
                assert(pre.drop_last() =~= fs.subrange(0, i as int - 1));
                lemma_assoc_map_props(self.frames@[i as int - 1].variables@);
            }
            match frame_find(&self.frames[i - 1], name) {
                Some(vi) => {
                    proof {
                        let vars = self.frames@[i as int - 1].variables@;
                        assert(forall|j: int|
                            vi < j < vars.len() ==> vars[j].0@ != vars[vi as int].0@);
                        assert(frame_view(self.frames@[i as int - 1]).contains_key(name@));
                        assert(frame_view(self.frames@[i as int - 1])[name@] == vars[
                            vi as int].1.deep_view());
                    }
                    return Some(self.frames[i - 1].variables[vi].1.duplicate());
                },
                None => {
                    i = i - 1;
                },
            }
        }
        proof {
            assert(fs.subrange(0, 0).len() == 0);
        }
        None
    }

    /// Variable write: overwrites an existing binding in the frame where it
    /// lives; creates the name in the outermost (global) frame otherwise.
    /// Hands back a copy of the stored value.
    pub fn assign_variable(&mut self, name: &String, data: Data) -> (r: Result<
        Data,
        InterpreterError,
    >)
        requires
            old(self).wf(),
            old(self).frames@.len() >= 1,
        ensures
            final(self).wf(),
            final(self).frames@.len() == old(self).frames@.len(),
            final(self).input == old(self).input,
            final(self).input_pos == old(self).input_pos,
            final(self).output == old(self).output,
            final(self).state().frames == assign_frames(
                old(self).state().frames,
                name@,
                data.deep_view(),
            ),
            match r {
                Ok(d) => d.deep_view() == data.deep_view(),
                Err(_) => false,
            },
    {
        let ghost fs0 = old(self).state().frames;
        let ghost dv = data.deep_view();
        let result = data.duplicate();
        proof {
            assert(result.deep_view() == dv);
        }
        let n = self.frames.len();
        let mut i: usize = n;
        proof {
            assert(fs0.len() == n);
        }
        while i > 0
            invariant
                i <= n == self.frames@.len(),
                self == old(self),
                self.wf(),
                fs0 == frames_view(self.frames@),
                fs0.len() == n,
                n >= 1,
                dv == data.deep_view(),
                result.deep_view() == dv,
                forall|j: int| i <= j < n ==> !(#[trigger] fs0[j]).contains_key(name@),
            decreases i,
        {
            proof {
                assert(frame_wf(self.frames@[i as int - 1]));
                lemma_assoc_map_props(self.frames@[i as int - 1].variables@);
                assert(fs0[i as int - 1] == frame_view(self.frames@[i as int - 1]));
            }
            match frame_find(&self.frames[i - 1], name) {
                Some(vi) => {
                    let ghost vars0 = self.frames@[i as int - 1].variables@;
                    proof {
                        assert(vars0[vi as int].0@ == name@);
                        assert(forall|j: int|
                            vi < j < vars0.len() ==> vars0[j].0@ != vars0[vi as int].0@);
                        assert(fs0[i as int - 1].contains_key(name@));
                    }
                    let mut fr = self.frames.remove(i - 1);
                    let pair = fr.variables.remove(vi);
                    fr.variables.insert(vi, (pair.0, data));
                    proof {
                        assert(fr.variables@ =~= vars0.update(
                            vi as int,
                            (vars0[vi as int].0, data),
                        ));
                        lemma_assoc_map_update(vars0, vi as int, data);
                    }
                    self.frames.insert(i - 1, fr);
                    proof {
                        assert(self.frames@ =~= old(self).frames@.update(
                            i as int - 1,
                            self.frames@[i as int - 1],
                        ));
                        lemma_assign_frames_found(fs0, name@, data.deep_view(), i as int - 1);
                        assert(frame_view(self.frames@[i as int - 1]) == fs0[i as int - 1].insert(
                            name@,
                            data.deep_view(),
                        ));
                        assert forall|j: int| 0 <= j < n implies frames_view(self.frames@)[j]
                            == assign_frames(fs0, name@, data.deep_view())[j] by {
                            if j != i - 1 {
                                assert(self.frames@[j] == old(self).frames@[j]);
                            }
                        }
                        assert(frames_view(self.frames@) =~= assign_frames(
                            fs0,
                            name@,
                            data.deep_view(),
                        ));
                        assert(final(self).state().input =~= old(self).state().input);
                    }
                    return Ok(result);
                },
                None => {
                    i = i - 1;
                },
            }
        }
        proof {
            assert(!frames_view(self.frames@)[0].contains_key(name@));
            assert(frame_wf(self.frames@[0]));
        }
        let mut g = self.frames.remove(0);
        let ghost vars0 = g.variables@;
        proof {
            lemma_assoc_map_props(vars0);
            assert(forall|j: int| 0 <= j < vars0.len() ==> vars0[j].0@ != name@);
        }
        let cloned = name.clone();
        let ghost pushed = (cloned, data);
        g.variables.push((cloned, data));
        proof {
            assert(pushed.0@ == name@);
            assert(g.variables@ =~= vars0.push(pushed));
            lemma_assoc_map_push(vars0, pushed.0, pushed.1);
        }
        self.frames.insert(0, g);
        proof {
            assert(self.frames@ =~= old(self).frames@.update(0, self.frames@[0]));
            lemma_assign_frames_fresh(fs0, name@, data.deep_view());
            assert(frames_view(self.frames@) =~= assign_frames(fs0, name@, data.deep_view()));
        }
        Ok(result)
    }
}

/// The compound-assignment operators desugar to these base operators.
pub open spec fn spec_base_operator(op: Operator) -> Operator {
    match op {
        Operator::AddAssign => Operator::Add,
        Operator::SubtractAssign => Operator::Subtract,
        Operator::MultiplyAssign => Operator::Multiply,
        Operator::DivideAssign => Operator::Divide,
        Operator::ModuloAssign => Operator::Modulo,
        _ => op,
    }
}

fn base_operator(op: Operator) -> (r: Operator)
    ensures
        r == spec_base_operator(op),
{
    match op {
        Operator::AddAssign => Operator::Add,
        Operator::SubtractAssign => Operator::Subtract,
        Operator::MultiplyAssign => Operator::Multiply,
        Operator::DivideAssign => Operator::Divide,
        Operator::ModuloAssign => Operator::Modulo,
        _ => op,
    }
}

/// The message of the type-mismatch error met when a binary operator node
/// carries no right operand.
pub open spec fn msg_missing_right(op: Operator) -> Seq<char> {
    match op {
        Operator::Add => "No right for operator add"@,
        Operator::Subtract => "No right for operator subtract"@,
        Operator::Multiply => "No right for operator multiply"@,
        Operator::Divide => "No right for operator divide"@,
        Operator::Modulo => "No right for operator modulo"@,
        Operator::Exponent => "No right for operator exponent"@,
        Operator::Equal => "No right for operator equal"@,
        Operator::NotEqual => "No right for operator not equal"@,
        Operator::LessThan => "No right for operator less than"@,
        Operator::GreaterThan => "No right for operator greater than"@,
        Operator::LessThanOrEqual => "No right for operator less than or equal"@,
        Operator::GreaterThanOrEqual => "No right for operator greater than or equal"@,
        Operator::And => "No right for operator and"@,
        Operator::Or => "No right for operator or"@,
        _ => "No right for assignment"@,
    }
}

fn missing_right_msg(op: Operator) -> (r: String)
    ensures
        r@ == msg_missing_right(op),
{
    match op {
        Operator::Add => "No right for operator add".to_owned(),
        Operator::Subtract => "No right for operator subtract".to_owned(),
        Operator::Multiply => "No right for operator multiply".to_owned(),
        Operator::Divide => "No right for operator divide".to_owned(),
        Operator::Modulo => "No right for operator modulo".to_owned(),
        Operator::Exponent => "No right for operator exponent".to_owned(),
        Operator::Equal => "No right for operator equal".to_owned(),
        Operator::NotEqual => "No right for operator not equal".to_owned(),
        Operator::LessThan => "No right for operator less than".to_owned(),
        Operator::GreaterThan => "No right for operator greater than".to_owned(),
        Operator::LessThanOrEqual => "No right for operator less than or equal".to_owned(),
        Operator::GreaterThanOrEqual => "No right for operator greater than or equal".to_owned(),
        Operator::And => "No right for operator and".to_owned(),
        Operator::Or => "No right for operator or".to_owned(),
        _ => "No right for assignment".to_owned(),
    }
}

/// Applying a binary data operator, with the type rules of the language:
/// addition takes two numbers or two strings; the other arithmetic and
/// ordering operators take two numbers; the logical operators take two
/// booleans; equality never fails and compares cross-kind pairs as unequal.
/// An integer division or remainder by integer zero is reported as a typed
/// runtime error rather than a fault.
pub open spec fn apply_binop(op: Operator, a: DataModel, b: DataModel) -> Result<
    DataModel,
    InterpreterErrorModel,
> {
    match op {
        Operator::Add => match (a, b) {
            (DataModel::Number(x), DataModel::Number(y)) => Ok(
                DataModel::Number(crate::number::spec_num_add(x, y)),
            ),
            (DataModel::StrLit(x), DataModel::StrLit(y)) => Ok(DataModel::StrLit(x + y)),
            _ => Err(
                InterpreterErrorModel::TypeMismatch("Expected 2 strings or 2 numbers when adding"@),
            ),
        },
        Operator::Subtract => match (a, b) {
            (DataModel::Number(x), DataModel::Number(y)) => Ok(
                DataModel::Number(crate::number::spec_num_sub(x, y)),
            ),
            _ => Err(InterpreterErrorModel::TypeMismatch("Expected 2 numbers when subtracting"@)),
        },
        Operator::Multiply => match (a, b) {
            (DataModel::Number(x), DataModel::Number(y)) => Ok(
                DataModel::Number(crate::number::spec_num_mul(x, y)),
            ),
            _ => Err(InterpreterErrorModel::TypeMismatch("Expected 2 numbers when multiplying"@)),
        },
        Operator::Divide => match (a, b) {
            (DataModel::Number(x), DataModel::Number(y)) => match crate::number::spec_num_div(
                x,
                y,
            ) {
                Some(n) => Ok(DataModel::Number(n)),
                None => Err(InterpreterErrorModel::TypeMismatch("Division by zero"@)),
            },
            _ => Err(InterpreterErrorModel::TypeMismatch("Expected 2 numbers when dividing"@)),
        },
        Operator::Modulo => match (a, b) {
            (DataModel::Number(x), DataModel::Number(y)) => match crate::number::spec_num_rem(
                x,
                y,
            ) {
                Some(n) => Ok(DataModel::Number(n)),
                None => Err(InterpreterErrorModel::TypeMismatch("Modulo by zero"@)),
            },
            _ => Err(
                InterpreterErrorModel::TypeMismatch("Expected 2 numbers when taking modulo"@),
            ),
        },
        Operator::Exponent => match (a, b) {
            (DataModel::Number(x), DataModel::Number(y)) => Ok(
                DataModel::Number(crate::number::spec_num_pow(x, y)),
            ),
            _ => Err(
                InterpreterErrorModel::TypeMismatch("Expected 2 numbers when taking exponent"@),
            ),
        },
        Operator::Equal => match (a, b) {
            (DataModel::Number(x), DataModel::Number(y)) => Ok(
                DataModel::Boolean(crate::number::spec_num_eq(x, y)),
            ),
            (DataModel::StrLit(x), DataModel::StrLit(y)) => Ok(DataModel::Boolean(x == y)),
            (DataModel::Boolean(x), DataModel::Boolean(y)) => Ok(DataModel::Boolean(x == y)),
            _ => Ok(DataModel::Boolean(false)),
        },
        Operator::NotEqual => match (a, b) {
            (DataModel::Number(x), DataModel::Number(y)) => Ok(
                DataModel::Boolean(!crate::number::spec_num_eq(x, y)),
            ),
            (DataModel::StrLit(x), DataModel::StrLit(y)) => Ok(DataModel::Boolean(x != y)),
            (DataModel::Boolean(x), DataModel::Boolean(y)) => Ok(DataModel::Boolean(x != y)),
            _ => Ok(DataModel::Boolean(true)),
        },
        Operator::LessThan => match (a, b) {
            (DataModel::Number(x), DataModel::Number(y)) => Ok(
                DataModel::Boolean(crate::number::spec_num_lt(x, y)),
            ),
            _ => Err(InterpreterErrorModel::TypeMismatch("Expected 2 numbers "@)),
        },
        Operator::LessThanOrEqual => match (a, b) {
            (DataModel::Number(x), DataModel::Number(y)) => Ok(
                DataModel::Boolean(crate::number::spec_num_le(x, y)),
            ),
            _ => Err(InterpreterErrorModel::TypeMismatch("Expected 2 numbers "@)),
        },
        Operator::GreaterThan => match (a, b) {
            (DataModel::Number(x), DataModel::Number(y)) => Ok(
                DataModel::Boolean(crate::number::spec_num_lt(y, x)),
            ),
            _ => Err(InterpreterErrorModel::TypeMismatch("Expected 2 numbers "@)),
        },
        Operator::GreaterThanOrEqual => match (a, b) {
            (DataModel::Number(x), DataModel::Number(y)) => Ok(
                DataModel::Boolean(crate::number::spec_num_le(y, x)),
            ),
            _ => Err(InterpreterErrorModel::TypeMismatch("Expected 2 numbers "@)),
        },
        Operator::And => match (a, b) {
            (DataModel::Boolean(x), DataModel::Boolean(y)) => Ok(DataModel::Boolean(x && y)),
            _ => Err(InterpreterErrorModel::TypeMismatch("Expected 2 booleans "@)),
        },
        Operator::Or => match (a, b) {
            (DataModel::Boolean(x), DataModel::Boolean(y)) => Ok(DataModel::Boolean(x || y)),
            _ => Err(InterpreterErrorModel::TypeMismatch("Expected 2 booleans "@)),
        },
        // Negation, grouping and the assignment forms are not binary data
        // operators; no caller passes them here.
        _ => Err(InterpreterErrorModel::TypeMismatch(Seq::empty())),
    }
}

/// The outcome of evaluating one expression: a value, or an error, together
/// with the frame stack after any assignments the evaluation performed.
pub enum EvalOutcome {
    Succ(DataModel, Seq<Map<Seq<char>, DataModel>>),
    Fail(InterpreterErrorModel, Seq<Map<Seq<char>, DataModel>>),
}

/// Expression evaluation. The left operand of a binary operator is evaluated
/// strictly before the right, and the logical operators evaluate both
/// operands: there is no short-circuit. An assignment evaluates its right
/// side, writes through the write-resolution rule, and yields the assigned
/// value; a compound assignment first reads its target, evaluates the right
/// side, applies the base operator and writes the result back.
pub open spec fn spec_eval(v: ValueModel, fs: Seq<Map<Seq<char>, DataModel>>) -> EvalOutcome
    decreases v,
{
    match v {
        ValueModel::Number(n) => EvalOutcome::Succ(DataModel::Number(n), fs),
        ValueModel::StrLit(s) => EvalOutcome::Succ(DataModel::StrLit(s), fs),
        ValueModel::Boolean(b) => EvalOutcome::Succ(DataModel::Boolean(b), fs),
        ValueModel::Identifier(name) => match lookup_frames(fs, name) {
            Some(d) => EvalOutcome::Succ(d, fs),
            None => EvalOutcome::Fail(InterpreterErrorModel::VariableNotDefined(name), fs),
        },
        ValueModel::Unary(op, l) => match op {
            Operator::Not => spec_eval_not(spec_eval(*l, fs)),
            Operator::Brackets => spec_eval(*l, fs),
            Operator::Assign | Operator::AddAssign | Operator::SubtractAssign
                | Operator::MultiplyAssign | Operator::DivideAssign | Operator::ModuloAssign =>
                EvalOutcome::Fail(
                InterpreterErrorModel::TypeMismatch("No right for assignment"@),
                fs,
            ),
            _ => match spec_eval(*l, fs) {
                EvalOutcome::Fail(e, fs1) => EvalOutcome::Fail(e, fs1),
                EvalOutcome::Succ(_, fs1) => EvalOutcome::Fail(
                    InterpreterErrorModel::TypeMismatch(msg_missing_right(op)),
                    fs1,
                ),
            },
        },
        ValueModel::Binary(op, l, r) => match op {
            Operator::Not => spec_eval_not(spec_eval(*l, fs)),
            Operator::Brackets => spec_eval(*l, fs),
            Operator::Assign => match *l {
                ValueModel::Identifier(name) => match spec_eval(*r, fs) {
                    EvalOutcome::Fail(e, fs1) => EvalOutcome::Fail(e, fs1),
                    EvalOutcome::Succ(d, fs1) => EvalOutcome::Succ(
                        d,
                        assign_frames(fs1, name, d),
                    ),
                },
                _ => EvalOutcome::Fail(
                    InterpreterErrorModel::TypeMismatch(
                        "Expected identifier on left side of assignment"@,
                    ),
                    fs,
                ),
            },
            Operator::AddAssign | Operator::SubtractAssign | Operator::MultiplyAssign
                | Operator::DivideAssign | Operator::ModuloAssign => match *l {
                ValueModel::Identifier(name) => match lookup_frames(fs, name) {
                    None => EvalOutcome::Fail(
                        InterpreterErrorModel::VariableNotDefined(name),
                        fs,
                    ),
                    Some(dl) => match spec_eval(*r, fs) {
                        EvalOutcome::Fail(e, fs1) => EvalOutcome::Fail(e, fs1),
                        EvalOutcome::Succ(dr, fs1) => match apply_binop(
                            spec_base_operator(op),
                            dl,
                            dr,
                        ) {
                            Err(e) => EvalOutcome::Fail(e, fs1),
                            Ok(d) => EvalOutcome::Succ(d, assign_frames(fs1, name, d)),
                        },
                    },
                },
                _ => EvalOutcome::Fail(
                    InterpreterErrorModel::TypeMismatch(
                        "Expected identifier on left side of assignment"@,
                    ),
                    fs,
                ),
            },
            _ => match spec_eval(*l, fs) {
                EvalOutcome::Fail(e, fs1) => EvalOutcome::Fail(e, fs1),
                EvalOutcome::Succ(dl, fs1) => match spec_eval(*r, fs1) {
                    EvalOutcome::Fail(e, fs2) => EvalOutcome::Fail(e, fs2),
                    EvalOutcome::Succ(dr, fs2) => match apply_binop(op, dl, dr) {
                        Err(e) => EvalOutcome::Fail(e, fs2),
                        Ok(d) => EvalOutcome::Succ(d, fs2),
                    },
                },
            },
        },
    }
}

/// Logical negation of an evaluation outcome: the operand must be a boolean.
pub open spec fn spec_eval_not(o: EvalOutcome) -> EvalOutcome {
    match o {
        EvalOutcome::Fail(e, fs1) => EvalOutcome::Fail(e, fs1),
        EvalOutcome::Succ(d, fs1) => match d {
            DataModel::Boolean(b) => EvalOutcome::Succ(DataModel::Boolean(!b), fs1),
            _ => EvalOutcome::Fail(
                InterpreterErrorModel::TypeMismatch("Expected 1 boolean "@),
                fs1,
            ),
        },
    }
}

/// Applies a binary data operator to two runtime values.
fn apply_binop_exec(op: Operator, a: Data, b: Data) -> (r: Result<Data, InterpreterError>)
    ensures
        match r {
            Ok(d) => apply_binop(op, a.deep_view(), b.deep_view()) == Ok::<
                DataModel,
                InterpreterErrorModel,
            >(d.deep_view()),
            Err(e) => apply_binop(op, a.deep_view(), b.deep_view()) == Err::<
                DataModel,
                InterpreterErrorModel,
            >(e.deep_view()),
        },
{
    match op {
        Operator::Add => match (a, b) {
            (Data::Number(x), Data::Number(y)) => Ok(Data::Number(x.add(&y))),
            (Data::String(x), Data::String(y)) => Ok(Data::String(x.concat(y.as_str()))),
            _ => Err(
                InterpreterError::TypeMismatch(
                    "Expected 2 strings or 2 numbers when adding".to_owned(),
                ),
            ),
        },
        Operator::Subtract => match (a, b) {
            (Data::Number(x), Data::Number(y)) => Ok(Data::Number(x.sub(&y))),
            _ => Err(
                InterpreterError::TypeMismatch("Expected 2 numbers when subtracting".to_owned()),
            ),
        },
        Operator::Multiply => match (a, b) {
            (Data::Number(x), Data::Number(y)) => Ok(Data::Number(x.mul(&y))),
            _ => Err(
                InterpreterError::TypeMismatch("Expected 2 numbers when multiplying".to_owned()),
            ),
        },
        Operator::Divide => match (a, b) {
            (Data::Number(x), Data::Number(y)) => match x.div(&y) {
                Some(n) => Ok(Data::Number(n)),
                None => Err(InterpreterError::TypeMismatch("Division by zero".to_owned())),
            },
            _ => Err(
                InterpreterError::TypeMismatch("Expected 2 numbers when dividing".to_owned()),
            ),
        },
        Operator::Modulo => match (a, b) {
            (Data::Number(x), Data::Number(y)) => match x.rem(&y) {
                Some(n) => Ok(Data::Number(n)),
                None => Err(InterpreterError::TypeMismatch("Modulo by zero".to_owned())),
            },
            _ => Err(
                InterpreterError::TypeMismatch(
                    "Expected 2 numbers when taking modulo".to_owned(),
                ),
            ),
        },
        Operator::Exponent => match (a, b) {
            (Data::Number(x), Data::Number(y)) => Ok(Data::Number(x.pow(&y))),
            _ => Err(
                InterpreterError::TypeMismatch(
                    "Expected 2 numbers when taking exponent".to_owned(),
                ),
            ),
        },
        Operator::Equal => match (a, b) {
            (Data::Number(x), Data::Number(y)) => Ok(Data::Boolean(x.num_eq(&y))),
            (Data::String(x), Data::String(y)) => Ok(Data::Boolean(x == y)),
            (Data::Boolean(x), Data::Boolean(y)) => Ok(Data::Boolean(x == y)),
            _ => Ok(Data::Boolean(false)),
        },
        Operator::NotEqual => match (a, b) {
            (Data::Number(x), Data::Number(y)) => Ok(Data::Boolean(!x.num_eq(&y))),
            (Data::String(x), Data::String(y)) => Ok(Data::Boolean(!(x == y))),
            (Data::Boolean(x), Data::Boolean(y)) => Ok(Data::Boolean(x != y)),
            _ => Ok(Data::Boolean(true)),
        },
        Operator::LessThan => match (a, b) {
            (Data::Number(x), Data::Number(y)) => Ok(Data::Boolean(x.num_lt(&y))),
            _ => Err(InterpreterError::TypeMismatch("Expected 2 numbers ".to_owned())),
        },
        Operator::LessThanOrEqual => match (a, b) {
            (Data::Number(x), Data::Number(y)) => Ok(Data::Boolean(x.num_le(&y))),
            _ => Err(InterpreterError::TypeMismatch("Expected 2 numbers ".to_owned())),
        },
        Operator::GreaterThan => match (a, b) {
            (Data::Number(x), Data::Number(y)) => Ok(Data::Boolean(y.num_lt(&x))),
            _ => Err(InterpreterError::TypeMismatch("Expected 2 numbers ".to_owned())),
        },
        Operator::GreaterThanOrEqual => match (a, b) {
            (Data::Number(x), Data::Number(y)) => Ok(Data::Boolean(y.num_le(&x))),
            _ => Err(InterpreterError::TypeMismatch("Expected 2 numbers ".to_owned())),
        },
        Operator::And => match (a, b) {
            (Data::Boolean(x), Data::Boolean(y)) => Ok(Data::Boolean(x && y)),
            _ => Err(InterpreterError::TypeMismatch("Expected 2 booleans ".to_owned())),
        },
        Operator::Or => match (a, b) {
            (Data::Boolean(x), Data::Boolean(y)) => Ok(Data::Boolean(x || y)),
            _ => Err(InterpreterError::TypeMismatch("Expected 2 booleans ".to_owned())),
        },
        _ => Err(InterpreterError::TypeMismatch(String::new())),
    }
}

impl VM {
    /// Evaluates one expression tree against the current frame stack,
    /// applying any assignments it contains. Expressions read and write
    /// variables only: the input and output streams are untouched.
    pub fn evaluate_value(&mut self, value: &Value) -> (r: Result<Data, InterpreterError>)
        requires
            old(self).wf(),
            old(self).frames@.len() >= 1,
        ensures
            final(self).wf(),
            final(self).frames@.len() == old(self).frames@.len(),
            final(self).input == old(self).input,
            final(self).input_pos == old(self).input_pos,
            final(self).output == old(self).output,
            match r {
                Ok(d) => spec_eval(value_view(*value), old(self).state().frames)
                    == EvalOutcome::Succ(d.deep_view(), final(self).state().frames),
                Err(e) => spec_eval(value_view(*value), old(self).state().frames)
                    == EvalOutcome::Fail(e.deep_view(), final(self).state().frames),
            },
        decreases value,
    {
        match value {
            Value::Number(n) => Ok(Data::Number(*n)),
            Value::String(s) => Ok(Data::String(s.clone())),
            Value::Boolean(b) => Ok(Data::Boolean(*b)),
            Value::Identifier(name) => match self.get_variable(name) {
                Some(d) => Ok(d),
                None => Err(InterpreterError::VariableNotDefined(name.clone())),
            },
            Value::Expression(e) => {
                let op = e.operator;
                match op {
                    Operator::Not => {
                        match self.evaluate_value(&*e.left) {
                            Err(er) => Err(er),
                            Ok(d) => match d {
                                Data::Boolean(b) => Ok(Data::Boolean(!b)),
                                _ => Err(
                                    InterpreterError::TypeMismatch(
                                        "Expected 1 boolean ".to_owned(),
                                    ),
                                ),
                            },
                        }
                    },
                    Operator::Brackets => self.evaluate_value(&*e.left),
                    Operator::Assign => {
                        match &e.right {
                            None => Err(
                                InterpreterError::TypeMismatch(
                                    "No right for assignment".to_owned(),
                                ),
                            ),
                            Some(rhs) => match &*e.left {
                                Value::Identifier(name) => {
                                    match self.evaluate_value(&**rhs) {
                                        Err(er) => Err(er),
                                        Ok(d) => self.assign_variable(name, d),
                                    }
                                },
                                _ => Err(
                                    InterpreterError::TypeMismatch(
                                        "Expected identifier on left side of assignment".to_owned(),
                                    ),
                                ),
                            },
                        }
                    },
                    Operator::AddAssign | Operator::SubtractAssign | Operator::MultiplyAssign
                        | Operator::DivideAssign | Operator::ModuloAssign => {
                        match &e.right {
                            None => Err(
                                InterpreterError::TypeMismatch(
                                    "No right for assignment".to_owned(),
                                ),
                            ),
                            Some(rhs) => match &*e.left {
                                Value::Identifier(name) => {
                                    match self.get_variable(name) {
                                        None => Err(
                                            InterpreterError::VariableNotDefined(name.clone()),
                                        ),
                                        Some(dl) => match self.evaluate_value(&**rhs) {
                                            Err(er) => Err(er),
                                            Ok(dr) => {
                                                let base = base_operator(op);
                                                match apply_binop_exec(base, dl, dr) {
                                                    Err(er) => Err(er),
                                                    Ok(d) => self.assign_variable(name, d),
                                                }
                                            },
                                        },
                                    }
                                },
                                _ => Err(
                                    InterpreterError::TypeMismatch(
                                        "Expected identifier on left side of assignment".to_owned(),
                                    ),
                                ),
                            },
                        }
                    },
                    _ => {
                        match self.evaluate_value(&*e.left) {
                            Err(er) => Err(er),
                            Ok(dl) => match &e.right {
                                None => Err(
                                    InterpreterError::TypeMismatch(missing_right_msg(op)),
                                ),
                                Some(rhs) => match self.evaluate_value(&**rhs) {
                                    Err(er) => Err(er),
                                    Ok(dr) => apply_binop_exec(op, dl, dr),
                                },
                            },
                        }
                    },
                }
            },
        }
    }
}

impl Data {
    /// The display text of a value: a number's literal text, a string
    /// itself, `true` or `false` for a boolean.
    pub fn to_string(&self) -> (r: String)
        ensures
            r@ == spec_data_display(self.deep_view()),
    {
        match self {
            Data::Number(n) => n.to_string(),
            Data::String(s) => s.clone(),
            Data::Boolean(b) => if *b {
                "true".to_owned()
            } else {
                "false".to_owned()
            },
        }
    }
}

/// The whitespace that `input` strips from the end of a line.
pub open spec fn is_ws_char(c: char) -> bool {
    c == ' ' || c == '\t' || c == '\r' || c == '\n'
}

/// A line with its trailing line-ending and whitespace removed; leading
/// whitespace is kept.
pub open spec fn spec_trim(s: Seq<char>) -> Seq<char>
    decreases s.len(),
{
    if s.len() == 0 {
        s
    } else if is_ws_char(s.last()) {
        spec_trim(s.drop_last())
    } else {
        s
    }
}

fn is_ws(c: char) -> (r: bool)
    ensures
        r == is_ws_char(c),
{
    c == ' ' || c == '\t' || c == '\r' || c == '\n'
}

/// Strips the trailing line-ending and whitespace from a line.
fn trim_line(s: &str) -> (r: String)
    ensures
        r@ == spec_trim(s@),
{
    let n = s.unicode_len();
    let mut hi: usize = n;
    proof {
        assert(s@.subrange(0, n as int) =~= s@);
    }
    while hi > 0 && is_ws(s.get_char(hi - 1))
        invariant
            hi <= n == s@.len(),
            spec_trim(s@) == spec_trim(s@.subrange(0, hi as int)),
        decreases hi,
    {
        proof {
            let part = s@.subrange(0, hi as int);
            assert(part.last() == s@[hi as int - 1]);
            assert(part.drop_last() =~= s@.subrange(0, hi as int - 1));
        }
        hi = hi - 1;
    }
    if hi == 0 {
        proof {
            assert(s@.subrange(0, 0).len() == 0);
        }
        return String::new();
    }
    proof {
        let part = s@.subrange(0, hi as int);
        assert(part.last() == s@[hi as int - 1]);
        assert(!is_ws_char(part.last()));
    }
    s.substring_char(0, hi).to_owned()
}

/// The outcome of running an instruction sequence: normal or break-initiated
/// completion with the state reached, a runtime error with the state at the
/// fault, or exhaustion of the loop budget.
pub enum StepR {
    Done(StateModel, bool),
    Fail(InterpreterErrorModel, StateModel),
    Spin,
}

impl StateModel {
    pub open spec fn with_frames(self, fs: Seq<Map<Seq<char>, DataModel>>) -> StateModel {
        StateModel { frames: fs, input: self.input, output: self.output }
    }
}

/// The else-flag carried between consecutive instructions: set by an `if`
/// whose condition was false, it arms the immediately following `else`.
pub open spec fn step_flag(flag: Option<bool>) -> Option<bool> {
    match flag {
        Some(b) => if b {
            Some(false)
        } else {
            None
        },
        None => None,
    }
}

pub open spec fn pop_frame(st: StateModel) -> StateModel {
    if st.frames.len() > 0 {
        st.with_frames(st.frames.drop_last())
    } else {
        st
    }
}

/// Running an instruction sequence. Each instruction sees the else-flag left
/// by its predecessor; a `break` completes the sequence immediately and
/// propagates until the nearest enclosing `while` consumes it. `fuel` bounds
/// only the number of loop iterations a `while` may run.
pub open spec fn spec_run(
    instrs: Seq<InstrModel>,
    st: StateModel,
    flag: Option<bool>,
    fuel: nat,
) -> StepR
    decreases fuel, instrs, 0int,
{
    if instrs.len() == 0 {
        StepR::Done(st, false)
    } else {
        let flag1 = step_flag(flag);
        let rest = instrs.skip(1);
        match instrs[0] {
            InstrModel::Break => StepR::Done(st, true),
            InstrModel::Value { value } => match spec_eval(value, st.frames) {
                EvalOutcome::Fail(e, fs) => StepR::Fail(e, st.with_frames(fs)),
                EvalOutcome::Succ(_, fs) => spec_run(rest, st.with_frames(fs), flag1, fuel),
            },
            InstrModel::Print { message } => match spec_eval(message, st.frames) {
                EvalOutcome::Fail(e, fs) => StepR::Fail(e, st.with_frames(fs)),
                EvalOutcome::Succ(d, fs) => spec_run(
                    rest,
                    StateModel {
                        frames: fs,
                        input: st.input,
                        output: st.output.push(spec_data_display(d)),
                    },
                    flag1,
                    fuel,
                ),
            },
            InstrModel::Input { variable } => {
                let line = if st.input.len() > 0 {
                    st.input[0]
                } else {
                    Seq::empty()
                };
                let rest_input = if st.input.len() > 0 {
                    st.input.skip(1)
                } else {
                    st.input
                };
                let fs = assign_frames(
                    st.frames,
                    variable,
                    DataModel::StrLit(spec_trim(line)),
                );
                spec_run(
                    rest,
                    StateModel { frames: fs, input: rest_input, output: st.output },
                    flag1,
                    fuel,
                )
            },
            InstrModel::If { condition, body } => match spec_eval(condition, st.frames) {
                EvalOutcome::Fail(e, fs) => StepR::Fail(e, st.with_frames(fs)),
                EvalOutcome::Succ(d, fs) => match d {
                    DataModel::Boolean(c) => if c {
                        match spec_run_block(body, st.with_frames(fs), fuel) {
                            StepR::Spin => StepR::Spin,
                            StepR::Fail(e, st1) => StepR::Fail(e, st1),
                            StepR::Done(st1, broke) => if broke {
                                StepR::Done(st1, true)
                            } else {
                                spec_run(rest, st1, flag1, fuel)
                            },
                        }
                    } else {
                        spec_run(rest, st.with_frames(fs), Some(true), fuel)
                    },
                    _ => StepR::Fail(
                        InterpreterErrorModel::TypeMismatch("Expected boolean for if condition"@),
                        st.with_frames(fs),
                    ),
                },
            },
            InstrModel::Else { body } => if flag1 is Some {
                match spec_run_block(body, st, fuel) {
                    StepR::Spin => StepR::Spin,
                    StepR::Fail(e, st1) => StepR::Fail(e, st1),
                    StepR::Done(st1, broke) => if broke {
                        StepR::Done(st1, true)
                    } else {
                        spec_run(rest, st1, flag1, fuel)
                    },
                }
            } else {
                spec_run(rest, st, flag1, fuel)
            },
            InstrModel::Scope { body } => match spec_run_block(body, st, fuel) {
                StepR::Spin => StepR::Spin,
                StepR::Fail(e, st1) => StepR::Fail(e, st1),
                StepR::Done(st1, broke) => if broke {
                    StepR::Done(st1, true)
                } else {
                    spec_run(rest, st1, flag1, fuel)
                },
            },
            InstrModel::While { condition, body } => match spec_while(condition, body, st, fuel) {
                StepR::Spin => StepR::Spin,
                StepR::Fail(e, st1) => StepR::Fail(e, st1),
                StepR::Done(st1, _) => spec_run(rest, st1, flag1, fuel),
            },
        }
    }
}

/// Running a block: a fresh frame is pushed on entry and popped on every
/// exit path, normal completion, `break`, or error.
pub open spec fn spec_run_block(body: Seq<InstrModel>, st: StateModel, fuel: nat) -> StepR
    decreases fuel, body, 1int,
{
    let entered = st.with_frames(st.frames.push(Map::empty()));
    match spec_run(body, entered, None, fuel) {
        StepR::Spin => StepR::Spin,
        StepR::Done(st1, broke) => StepR::Done(pop_frame(st1), broke),
        StepR::Fail(e, st1) => StepR::Fail(e, pop_frame(st1)),
    }
}

/// A `while` loop: the condition is re-evaluated before every iteration and
/// must be a boolean; each iteration's body runs in a fresh frame; a `break`
/// that reaches the loop ends it.
pub open spec fn spec_while(
    condition: ValueModel,
    body: Seq<InstrModel>,
    st: StateModel,
    fuel: nat,
) -> StepR
    decreases fuel, body, 2int,
{
    match spec_eval(condition, st.frames) {
        EvalOutcome::Fail(e, fs) => StepR::Fail(e, st.with_frames(fs)),
        EvalOutcome::Succ(d, fs) => match d {
            DataModel::Boolean(c) => if !c {
                StepR::Done(st.with_frames(fs), false)
            } else if fuel == 0 {
                StepR::Spin
            } else {
                match spec_run_block(body, st.with_frames(fs), fuel) {
                    StepR::Spin => StepR::Spin,
                    StepR::Fail(e, st1) => StepR::Fail(e, st1),
                    StepR::Done(st1, broke) => if broke {
                        StepR::Done(st1, false)
                    } else {
                        spec_while(condition, body, st1, (fuel - 1) as nat)
                    },
                }
            },
            _ => StepR::Fail(
                InterpreterErrorModel::TypeMismatch("Expected boolean for if condition"@),
                st.with_frames(fs),
            ),
        },
    }
}

/// How a run ended: completion (with whether a `break` unwound to this
/// point), a runtime error, or exhaustion of the loop budget.
#[derive(Debug)]
pub enum RunOutcome {
    Completed(bool),
    Failed(InterpreterError),
    OutOfFuel,
}

impl VM {
    /// Runs a block: pushes a fresh frame, runs the body, and pops the frame
    /// on every exit path.
    pub fn execute_new_instructions(&mut self, instructions: &Vec<Instruction>, fuel: u64) -> (r:
        RunOutcome)
        requires
            old(self).wf(),
            old(self).frames@.len() >= 1,
        ensures
            final(self).wf(),
            final(self).frames@.len() == old(self).frames@.len(),
            match r {
                RunOutcome::Completed(broke) => spec_run_block(
                    instrs_view(instructions@),
                    old(self).state(),
                    fuel as nat,
                ) == StepR::Done(final(self).state(), broke),
                RunOutcome::Failed(e) => spec_run_block(
                    instrs_view(instructions@),
                    old(self).state(),
                    fuel as nat,
                ) == StepR::Fail(e.deep_view(), final(self).state()),
                RunOutcome::OutOfFuel => spec_run_block(
                    instrs_view(instructions@),
                    old(self).state(),
                    fuel as nat,
                ) == StepR::Spin,
            },
        decreases instructions, 1int,
    {
        let ghost st_before = old(self).state();
        self.frames.push(StackFrame::empty());
        proof {
            assert(frames_view(self.frames@) =~= st_before.frames.push(
                Map::<Seq<char>, DataModel>::empty(),
            ));
            assert(self.state() == st_before.with_frames(
                st_before.frames.push(Map::<Seq<char>, DataModel>::empty()),
            ));
            assert forall|i: int| 0 <= i < self.frames@.len() implies frame_wf(
                #[trigger] self.frames@[i],
            ) by {
                if i < self.frames@.len() - 1 {
                    assert(self.frames@[i] == old(self).frames@[i]);
                }
            }
        }
        let r = self.run_list(instructions, fuel);
        let ghost st1 = self.state();
        let _popped = self.frames.pop();
        proof {
            assert(frames_view(self.frames@) =~= st1.frames.drop_last());
            assert(st1.frames.len() >= 1);
            assert(self.state() == pop_frame(st1));
            assert forall|i: int| 0 <= i < self.frames@.len() implies frame_wf(
                #[trigger] self.frames@[i],
            ) by {}
        }
        r
    }

    /// One `while` loop, re-evaluating the condition before each iteration.
    fn run_while(&mut self, condition: &Value, body: &Vec<Instruction>, fuel: u64) -> (r:
        RunOutcome)
        requires
            old(self).wf(),
            old(self).frames@.len() >= 1,
        ensures
            final(self).wf(),
            final(self).frames@.len() == old(self).frames@.len(),
            match r {
                RunOutcome::Completed(broke) => !broke && spec_while(
                    value_view(*condition),
                    instrs_view(body@),
                    old(self).state(),
                    fuel as nat,
                ) == StepR::Done(final(self).state(), false),
                RunOutcome::Failed(e) => spec_while(
                    value_view(*condition),
                    instrs_view(body@),
                    old(self).state(),
                    fuel as nat,
                ) == StepR::Fail(e.deep_view(), final(self).state()),
                RunOutcome::OutOfFuel => spec_while(
                    value_view(*condition),
                    instrs_view(body@),
                    old(self).state(),
                    fuel as nat,
                ) == StepR::Spin,
            },
        decreases body, 2int,
    {
        let ghost cv = value_view(*condition);
        let ghost bv = instrs_view(body@);
        let ghost stw = old(self).state();
        let mut f: u64 = fuel;
        loop
            invariant
                self.wf(),
                self.frames@.len() == old(self).frames@.len(),
                self.frames@.len() >= 1,
                f <= fuel,
                cv == value_view(*condition),
                bv == instrs_view(body@),
                stw == old(self).state(),
                spec_while(cv, bv, stw, fuel as nat) == spec_while(cv, bv, self.state(), f as nat),
            decreases f,
        {
            let ghost cur = self.state();
            match self.evaluate_value(condition) {
                Err(e) => {
                    proof {
                        assert(self.state() == cur.with_frames(self.state().frames));
                    }
                    return RunOutcome::Failed(e);
                },
                Ok(d) => {
                    proof {
                        assert(self.state() == cur.with_frames(self.state().frames));
                    }
                    match d {
                        Data::Boolean(c) => {
                            if !c {
                                return RunOutcome::Completed(false);
                            }
                            if f == 0 {
                                return RunOutcome::OutOfFuel;
                            }
                            let ghost before_block = self.state();
                            match self.execute_new_instructions(body, f) {
                                RunOutcome::Failed(e) => {
                                    return RunOutcome::Failed(e);
                                },
                                RunOutcome::OutOfFuel => {
                                    return RunOutcome::OutOfFuel;
                                },
                                RunOutcome::Completed(broke) => {
                                    if broke {
                                        return RunOutcome::Completed(false);
                                    }
                                    f = f - 1;
                                },
                            }
                        },
                        _ => {
                            return RunOutcome::Failed(
                                InterpreterError::TypeMismatch(
                                    "Expected boolean for if condition".to_owned(),
                                ),
                            );
                        },
                    }
                },
            }
        }
    }

    /// Runs an instruction sequence in the current frame, threading the
    /// else-flag from each instruction to the next.
    #[verifier::rlimit(100)]
    fn run_list(&mut self, instrs: &Vec<Instruction>, fuel: u64) -> (r: RunOutcome)
        requires
            old(self).wf(),
            old(self).frames@.len() >= 1,
        ensures
            final(self).wf(),
            final(self).frames@.len() == old(self).frames@.len(),
            match r {
                RunOutcome::Completed(broke) => spec_run(
                    instrs_view(instrs@),
                    old(self).state(),
                    None,
                    fuel as nat,
                ) == StepR::Done(final(self).state(), broke),
                RunOutcome::Failed(e) => spec_run(
                    instrs_view(instrs@),
                    old(self).state(),
                    None,
                    fuel as nat,
                ) == StepR::Fail(e.deep_view(), final(self).state()),
                RunOutcome::OutOfFuel => spec_run(
                    instrs_view(instrs@),
                    old(self).state(),
                    None,
                    fuel as nat,
                ) == StepR::Spin,
            },
        decreases instrs, 0int,
    {
        let ghost full = instrs_view(instrs@);
        let ghost st0 = old(self).state();
        proof {
            lemma_instrs_view_points(instrs@);
            assert(full.skip(0) =~= full);
        }
        let n = instrs.len();
        let mut i: usize = 0;
        let mut flag: Option<bool> = None;
        while i < n
            invariant
                i <= n == instrs@.len(),
                self.wf(),
                self.frames@.len() == old(self).frames@.len(),
                self.frames@.len() >= 1,
                full == instrs_view(instrs@),
                full.len() == n,
                st0 == old(self).state(),
                spec_run(full, st0, None, fuel as nat) == spec_run(
                    full.skip(i as int),
                    self.state(),
                    flag,
                    fuel as nat,
                ),
            decreases n - i,
        {
            let ghost ts = full.skip(i as int);
            let ghost cur = self.state();
            proof {
                lemma_instrs_view_points(instrs@);
                assert(ts[0] == full[i as int]);
                assert(full[i as int] == instr_view(instrs@[i as int]));
                assert(ts.skip(1) =~= full.skip(i as int + 1));
            }
            let flag1: Option<bool> = match flag {
                Some(true) => Some(false),
                Some(false) => None,
                None => None,
            };
            proof {
                assert(flag1 == step_flag(flag));
            }
            match &instrs[i] {
                Instruction::Break => {
                    proof {
                        assert(spec_run(ts, cur, flag, fuel as nat) == StepR::Done(cur, true));
                    }
                    return RunOutcome::Completed(true);
                },
                Instruction::Value { value } => {
                    match self.evaluate_value(value) {
                        Err(e) => {
                            proof {
                                assert(self.state() == cur.with_frames(self.state().frames));
                            }
                            return RunOutcome::Failed(e);
                        },
                        Ok(_) => {
                            proof {
                                assert(self.state() == cur.with_frames(self.state().frames));
                            }
                            flag = flag1;
                            i = i + 1;
                        },
                    }
                },
                Instruction::Print { message } => {
                    match self.evaluate_value(message) {
                        Err(e) => {
                            proof {
                                assert(self.state() == cur.with_frames(self.state().frames));
                            }
                            return RunOutcome::Failed(e);
                        },
                        Ok(d) => {
                            let ghost mid = self.state();
                            let line = d.to_string();
                            self.output.push(line);
                            proof {
                                assert(self.output@.map_values(|s: String| s@) =~= mid.output.push(
                                    spec_data_display(d.deep_view()),
                                ));
                                assert(self.state() == StateModel {
                                    frames: mid.frames,
                                    input: cur.input,
                                    output: cur.output.push(spec_data_display(d.deep_view())),
                                });
                            }
                            flag = flag1;
                            i = i + 1;
                        },
                    }
                },
                Instruction::Input { variable } => {
                    let ghost line0 = if cur.input.len() > 0 {
                        cur.input[0]
                    } else {
                        Seq::<char>::empty()
                    };
                    let line: String;
                    if self.input_pos < self.input.len() {
                        line = trim_line(self.input[self.input_pos].as_str());
                        self.input_pos = self.input_pos + 1;
                        proof {
                            assert(line@ == spec_trim(line0));
                            assert(self.state().input =~= cur.input.skip(1));
                        }
                    } else {
                        line = String::new();
                        proof {
                            assert(cur.input.len() == 0);
                            assert(line@ =~= spec_trim(line0));
                            assert(self.state().input =~= cur.input);
                        }
                    }
                    let ghost pre_assign = self.state();
                    let _ = self.assign_variable(variable, Data::String(line));
                    proof {
                        assert(pre_assign.frames == cur.frames);
                        assert(self.state() == StateModel {
                            frames: assign_frames(
                                cur.frames,
                                variable@,
                                DataModel::StrLit(spec_trim(line0)),
                            ),
                            input: pre_assign.input,
                            output: cur.output,
                        });
                    }
                    flag = flag1;
                    i = i + 1;
                },
                Instruction::If { condition, instructions: body } => {
                    match self.evaluate_value(condition) {
                        Err(e) => {
                            proof {
                                assert(self.state() == cur.with_frames(self.state().frames));
                            }
                            return RunOutcome::Failed(e);
                        },
                        Ok(d) => {
                            proof {
                                assert(self.state() == cur.with_frames(self.state().frames));
                            }
                            match d {
                                Data::Boolean(c) => {
                                    if c {
                                        match self.execute_new_instructions(body, fuel) {
                                            RunOutcome::Failed(e) => {
                                                return RunOutcome::Failed(e);
                                            },
                                            RunOutcome::OutOfFuel => {
                                                return RunOutcome::OutOfFuel;
                                            },
                                            RunOutcome::Completed(broke) => {
                                                if broke {
                                                    return RunOutcome::Completed(true);
                                                }
                                                flag = flag1;
                                                i = i + 1;
                                            },
                                        }
                                    } else {
                                        flag = Some(true);
                                        i = i + 1;
                                    }
                                },
                                _ => {
                                    return RunOutcome::Failed(
                                        InterpreterError::TypeMismatch(
                                            "Expected boolean for if condition".to_owned(),
                                        ),
                                    );
                                },
                            }
                        },
                    }
                },
                Instruction::Else { instructions: body } => {
                    let armed = matches!(flag1, Some(_));
                    if armed {
                        match self.execute_new_instructions(body, fuel) {
                            RunOutcome::Failed(e) => {
                                return RunOutcome::Failed(e);
                            },
                            RunOutcome::OutOfFuel => {
                                return RunOutcome::OutOfFuel;
                            },
                            RunOutcome::Completed(broke) => {
                                if broke {
                                    return RunOutcome::Completed(true);
                                }
                                flag = flag1;
                                i = i + 1;
                            },
                        }
                    } else {
                        flag = flag1;
                        i = i + 1;
                    }
                },
                Instruction::Scope { instructions: body } => {
                    match self.execute_new_instructions(body, fuel) {
                        RunOutcome::Failed(e) => {
                            return RunOutcome::Failed(e);
                        },
                        RunOutcome::OutOfFuel => {
                            return RunOutcome::OutOfFuel;
                        },
                        RunOutcome::Completed(broke) => {
                            if broke {
                                return RunOutcome::Completed(true);
                            }
                            flag = flag1;
                            i = i + 1;
                        },
                    }
                },
                Instruction::While { condition, instructions: body } => {
                    match self.run_while(condition, body, fuel) {
                        RunOutcome::Failed(e) => {
                            return RunOutcome::Failed(e);
                        },
                        RunOutcome::OutOfFuel => {
                            return RunOutcome::OutOfFuel;
                        },
                        RunOutcome::Completed(_) => {
                            flag = flag1;
                            i = i + 1;
                        },
                    }
                },
            }
        }
        proof {
            assert(full.skip(n as int).len() == 0);
        }
        RunOutcome::Completed(false)
    }
}

/// The state a program starts in: one empty global frame, the given input,
/// no output.
pub open spec fn initial_state(input: Seq<Seq<char>>) -> StateModel {
    StateModel { frames: seq![Map::<Seq<char>, DataModel>::empty()], input: input, output: Seq::empty() }
}

/// Running a whole program against its input lines, with a loop budget.
pub open spec fn spec_interpret(instrs: Seq<InstrModel>, input: Seq<Seq<char>>, fuel: nat) -> StepR {
    spec_run(instrs, initial_state(input), None, fuel)
}

/// Interprets a program: executes the instruction sequence against the given
/// input lines and returns the printed lines together with how the run
/// ended. `fuel` bounds only the number of iterations each `while` loop may
/// run; a caller that wants the unbounded behaviour passes `u64::MAX`, which
/// no real execution exhausts.
pub fn interpret(instructions: Vec<Instruction>, input: Vec<String>, fuel: u64) -> (r: (
    Vec<String>,
    RunOutcome,
))
    ensures
        match r.1 {
            RunOutcome::Completed(broke) => spec_interpret(
                instrs_view(instructions@),
                input@.map_values(|s: String| s@),
                fuel as nat,
            ) matches StepR::Done(st, b) && b == broke && st.output == r.0@.map_values(
                |s: String| s@,
            ),
            RunOutcome::Failed(e) => spec_interpret(
                instrs_view(instructions@),
                input@.map_values(|s: String| s@),
                fuel as nat,
            ) matches StepR::Fail(e2, st) && e2 == e.deep_view() && st.output == r.0@.map_values(
                |s: String| s@,
            ),
            RunOutcome::OutOfFuel => spec_interpret(
                instrs_view(instructions@),
                input@.map_values(|s: String| s@),
                fuel as nat,
            ) == StepR::Spin,
        },
{
    let mut vm = VM::new(input);
    proof {
        assert(vm.state() == initial_state(input@.map_values(|s: String| s@)));
    }
    let outcome = vm.run_list(&instructions, fuel);
    (vm.output, outcome)
}

/// Grouping identity: a parenthesis-grouping node evaluates to exactly what
/// its operand evaluates to, whatever the expression and the frame stack.
pub proof fn lemma_grouping_identity(x: ValueModel, fs: Seq<Map<Seq<char>, DataModel>>)
    ensures
        spec_eval(ValueModel::Unary(Operator::Brackets, Box::new(x)), fs) == spec_eval(x, fs),
        spec_eval(ValueModel::Binary(Operator::Brackets, Box::new(x), Box::new(x)), fs)
            == spec_eval(x, fs),
{
}

/// No short-circuit: a logical operator always evaluates its right operand,
/// even when the left operand already determines the result. The right
/// operand's assignments and errors always take effect.
pub proof fn lemma_no_short_circuit(
    op: Operator,
    l: ValueModel,
    r: ValueModel,
    fs: Seq<Map<Seq<char>, DataModel>>,
)
    requires
        op is And || op is Or,
    ensures
        spec_eval(l, fs) matches EvalOutcome::Succ(dl, fs1) ==> spec_eval(
            ValueModel::Binary(op, Box::new(l), Box::new(r)),
            fs,
        ) == (match spec_eval(r, fs1) {
            EvalOutcome::Fail(e, fs2) => EvalOutcome::Fail(e, fs2),
            EvalOutcome::Succ(dr, fs2) => match apply_binop(op, dl, dr) {
                Ok(d) => EvalOutcome::Succ(d, fs2),
                Err(e) => EvalOutcome::Fail(e, fs2),
            },
        }),
{
}

/// Cross-kind equality: values of different kinds compare as unequal, with
/// no error: `==` yields `false` and `!=` yields `true`.
pub proof fn lemma_cross_kind_equality(a: DataModel, b: DataModel)
    requires
        !(a is Number && b is Number),
        !(a is StrLit && b is StrLit),
        !(a is Boolean && b is Boolean),
    ensures
        apply_binop(Operator::Equal, a, b) == Ok::<DataModel, InterpreterErrorModel>(
            DataModel::Boolean(false),
        ),
        apply_binop(Operator::NotEqual, a, b) == Ok::<DataModel, InterpreterErrorModel>(
            DataModel::Boolean(true),
        ),
{
}

/// A `break` inside a nested block ends the nearest enclosing `while` loop:
/// a loop whose body breaks out of an inner `if` terminates after that one
/// iteration and leaves the state as it was.
pub proof fn lemma_break_ends_loop(st: StateModel, fuel: nat)
    requires
        fuel >= 1,
    ensures
        spec_while(
            ValueModel::Boolean(true),
            seq![
                InstrModel::If {
                    condition: ValueModel::Boolean(true),
                    body: seq![InstrModel::Break],
                }
            ],
            st,
            fuel,
        ) == StepR::Done(st, false),
{
    let cond = ValueModel::Boolean(true);
    let inner = seq![InstrModel::Break];
    let body = seq![InstrModel::If { condition: cond, body: inner }];
    assert(st.with_frames(st.frames) == st);
    let entered = st.with_frames(st.frames.push(Map::empty()));
    let entered2 = entered.with_frames(entered.frames.push(Map::empty()));
    assert(spec_run(inner, entered2, None, fuel) == StepR::Done(entered2, true));
    assert(pop_frame(entered2).frames =~= entered.frames);
    assert(pop_frame(entered2) == entered);
    assert(spec_run_block(inner, entered, fuel) == StepR::Done(entered, true));
    assert(spec_eval(cond, entered.frames) == EvalOutcome::Succ(
        DataModel::Boolean(true),
        entered.frames,
    ));
    assert(entered.with_frames(entered.frames) == entered);
    assert(spec_run(body, entered, None, fuel) == StepR::Done(entered, true));
    assert(pop_frame(entered).frames =~= st.frames);
    assert(pop_frame(entered) == st);
    assert(spec_run_block(body, st, fuel) == StepR::Done(st, true));
    assert(spec_eval(cond, st.frames) == EvalOutcome::Succ(DataModel::Boolean(true), st.frames));
}

/// Evaluating an expression never changes the number of frames: assignments
/// write into existing frames or the global frame, and push nothing.
pub proof fn lemma_eval_preserves_depth(v: ValueModel, fs: Seq<Map<Seq<char>, DataModel>>)
    ensures
        match spec_eval(v, fs) {
            EvalOutcome::Succ(_, fs1) => fs1.len() == fs.len(),
            EvalOutcome::Fail(_, fs1) => fs1.len() == fs.len(),
        },
    decreases v,
{
    match v {
        ValueModel::Unary(op, l) => {
            lemma_eval_preserves_depth(*l, fs);
        },
        ValueModel::Binary(op, l, r) => {
            lemma_eval_preserves_depth(*l, fs);
            match op {
                Operator::Assign => {
                    match spec_eval(*r, fs) {
                        EvalOutcome::Succ(d, fs1) => {
                            lemma_eval_preserves_depth(*r, fs);
                            if *l matches ValueModel::Identifier(name) {
                                lemma_assign_frames_len(fs1, l->Identifier_0, d);
                            }
                        },
                        EvalOutcome::Fail(_, _) => {
                            lemma_eval_preserves_depth(*r, fs);
                        },
                    }
                },
                Operator::AddAssign | Operator::SubtractAssign | Operator::MultiplyAssign
                    | Operator::DivideAssign | Operator::ModuloAssign => {
                    lemma_eval_preserves_depth(*r, fs);
                    match *l {
                        ValueModel::Identifier(name) => {
                            match lookup_frames(fs, name) {
                                Some(dl) => match spec_eval(*r, fs) {
                                    EvalOutcome::Succ(dr, fs1) => {
                                        match apply_binop(spec_base_operator(op), dl, dr) {
                                            Ok(d) => {
                                                lemma_assign_frames_len(fs1, name, d);
                                            },
                                            Err(_) => {},
                                        }
                                    },
                                    EvalOutcome::Fail(_, _) => {},
                                },
                                None => {},
                            }
                        },
                        _ => {},
                    }
                },
                _ => {
                    match spec_eval(*l, fs) {
                        EvalOutcome::Succ(_, fs1) => {
                            lemma_eval_preserves_depth(*r, fs1);
                        },
                        EvalOutcome::Fail(_, _) => {},
                    }
                },
            }
        },
        _ => {},
    }
}

/// The frame stack returns to its pre-call length on every exit path of a
/// run: normal fall-through, `break`, or a propagated error. Every block
/// pops the frame it pushed.
pub proof fn lemma_run_preserves_depth(
    instrs: Seq<InstrModel>,
    st: StateModel,
    flag: Option<bool>,
    fuel: nat,
)
    ensures
        match spec_run(instrs, st, flag, fuel) {
            StepR::Done(st1, _) => st1.frames.len() == st.frames.len(),
            StepR::Fail(_, st1) => st1.frames.len() == st.frames.len(),
            StepR::Spin => true,
        },
    decreases fuel, instrs, 0int,
{
    if instrs.len() > 0 {
        let flag1 = step_flag(flag);
        let rest = instrs.skip(1);
        match instrs[0] {
            InstrModel::Break => {},
            InstrModel::Value { value } => {
                lemma_eval_preserves_depth(value, st.frames);
                match spec_eval(value, st.frames) {
                    EvalOutcome::Succ(_, fs) => {
                        lemma_run_preserves_depth(rest, st.with_frames(fs), flag1, fuel);
                    },
                    EvalOutcome::Fail(_, _) => {},
                }
            },
            InstrModel::Print { message } => {
                lemma_eval_preserves_depth(message, st.frames);
                match spec_eval(message, st.frames) {
                    EvalOutcome::Succ(d, fs) => {
                        lemma_run_preserves_depth(
                            rest,
                            StateModel {
                                frames: fs,
                                input: st.input,
                                output: st.output.push(spec_data_display(d)),
                            },
                            flag1,
                            fuel,
                        );
                    },
                    EvalOutcome::Fail(_, _) => {},
                }
            },
            InstrModel::Input { variable } => {
                let line = if st.input.len() > 0 {
                    st.input[0]
                } else {
                    Seq::empty()
                };
                let rest_input = if st.input.len() > 0 {
                    st.input.skip(1)
                } else {
                    st.input
                };
                let fs = assign_frames(st.frames, variable, DataModel::StrLit(spec_trim(line)));
                lemma_assign_frames_len(st.frames, variable, DataModel::StrLit(spec_trim(line)));
                lemma_run_preserves_depth(
                    rest,
                    StateModel { frames: fs, input: rest_input, output: st.output },
                    flag1,
                    fuel,
                );
            },
            InstrModel::If { condition, body } => {
                lemma_eval_preserves_depth(condition, st.frames);
                match spec_eval(condition, st.frames) {
                    EvalOutcome::Succ(d, fs) => {
                        match d {
                            DataModel::Boolean(c) => {
                                if c {
                                    lemma_block_preserves_depth(body, st.with_frames(fs), fuel);
                                    match spec_run_block(body, st.with_frames(fs), fuel) {
                                        StepR::Done(st1, broke) => {
                                            if !broke {
                                                lemma_run_preserves_depth(rest, st1, flag1, fuel);
                                            }
                                        },
                                        _ => {},
                                    }
                                } else {
                                    lemma_run_preserves_depth(
                                        rest,
                                        st.with_frames(fs),
                                        Some(true),
                                        fuel,
                                    );
                                }
                            },
                            _ => {},
                        }
                    },
                    EvalOutcome::Fail(_, _) => {},
                }
            },
            InstrModel::Else { body } => {
                if flag1 is Some {
                    lemma_block_preserves_depth(body, st, fuel);
                    match spec_run_block(body, st, fuel) {
                        StepR::Done(st1, broke) => {
                            if !broke {
                                lemma_run_preserves_depth(rest, st1, flag1, fuel);
                            }
                        },
                        _ => {},
                    }
                } else {
                    lemma_run_preserves_depth(rest, st, flag1, fuel);
                }
            },
            InstrModel::Scope { body } => {
                lemma_block_preserves_depth(body, st, fuel);
                match spec_run_block(body, st, fuel) {
                    StepR::Done(st1, broke) => {
                        if !broke {
                            lemma_run_preserves_depth(rest, st1, flag1, fuel);
                        }
                    },
                    _ => {},
                }
            },
            InstrModel::While { condition, body } => {
                lemma_while_preserves_depth(condition, body, st, fuel);
                match spec_while(condition, body, st, fuel) {
                    StepR::Done(st1, _) => {
                        lemma_run_preserves_depth(rest, st1, flag1, fuel);
                    },
                    _ => {},
                }
            },
        }
    }
}

pub proof fn lemma_block_preserves_depth(body: Seq<InstrModel>, st: StateModel, fuel: nat)
    ensures
        match spec_run_block(body, st, fuel) {
            StepR::Done(st1, _) => st1.frames.len() == st.frames.len(),
            StepR::Fail(_, st1) => st1.frames.len() == st.frames.len(),
            StepR::Spin => true,
        },
    decreases fuel, body, 1int,
{
    let entered = st.with_frames(st.frames.push(Map::empty()));
    lemma_run_preserves_depth(body, entered, None, fuel);
}

pub proof fn lemma_while_preserves_depth(
    condition: ValueModel,
    body: Seq<InstrModel>,
    st: StateModel,
    fuel: nat,
)
    ensures
        match spec_while(condition, body, st, fuel) {
            StepR::Done(st1, _) => st1.frames.len() == st.frames.len(),
            StepR::Fail(_, st1) => st1.frames.len() == st.frames.len(),
            StepR::Spin => true,
        },
    decreases fuel, body, 2int,
{
    lemma_eval_preserves_depth(condition, st.frames);
    match spec_eval(condition, st.frames) {
        EvalOutcome::Succ(d, fs) => {
            match d {
                DataModel::Boolean(c) => {
                    if c && fuel > 0 {
                        lemma_block_preserves_depth(body, st.with_frames(fs), fuel);
                        match spec_run_block(body, st.with_frames(fs), fuel) {
                            StepR::Done(st1, broke) => {
                                if !broke {
                                    lemma_while_preserves_depth(
                                        condition,
                                        body,
                                        st1,
                                        (fuel - 1) as nat,
                                    );
                                }
                            },
                            _ => {},
                        }
                    }
                },
                _ => {},
            }
        },
        EvalOutcome::Fail(_, _) => {},
    }
}

} // verus!
