use crate::util::spec_fmt_list;
use vstd::prelude::*;

verus! {

/// The effect a statement's trailing punctuation asks for: `!` overwrites,
/// `?` fails silently, `.` asks for nothing.
#[derive(Clone, Copy, Debug, PartialEq, Eq, Structural, Hash)]
pub enum Modifier {
    FailSilently,
    Overwrite,
    Plain,
}

pub open spec fn spec_modifier_text(m: Modifier) -> Seq<char> {
    match m {
        Modifier::FailSilently => "fail silently"@,
        Modifier::Overwrite => "overwrite if existing"@,
        Modifier::Plain => ""@,
    }
}

impl Modifier {
    /// The display text of this modifier.
    pub fn render(&self) -> (r: &'static str)
        ensures
            r@ == spec_modifier_text(*self),
    {
        match self {
            Modifier::FailSilently => "fail silently",
            Modifier::Overwrite => "overwrite if existing",
            Modifier::Plain => "",
        }
    }
}

/// The canonical text of a list of names or departments.
pub open spec fn spec_list_text(list: Seq<Seq<char>>) -> Seq<char> {
    spec_fmt_list(list, ", "@, "and"@)
}

fn fmt_list(list: &Vec<String>) -> (r: String)
    ensures
        r@ == spec_list_text(list.deep_view()),
{
    crate::util::fmt_list(list, ", ", "and")
}

/// The trailing modifier note of a rendered operation: nothing for
/// `Modifier::Plain`, otherwise the modifier's text in parentheses.
pub open spec fn spec_fmt_modifier(m: Modifier) -> Seq<char> {
    if m is Plain {
        Seq::empty()
    } else {
        " ("@ + spec_modifier_text(m) + ")"@
    }
}

fn fmt_modifier(m: Modifier) -> (r: String)
    ensures
        r@ == spec_fmt_modifier(m),
{
    let mut out = String::new();
    if !matches!(m, Modifier::Plain) {
        out.append(" (");
        out.append(m.render());
        out.append(")");
    }
    proof {
        assert(out@ =~= spec_fmt_modifier(m));
    }
    out
}

// ---------------------------------------------------------------------------
// The four operation kinds
// ---------------------------------------------------------------------------
#[verifier::ext_equal]
pub struct SpecOperationAdd {
    pub names: Seq<Seq<char>>,
    pub departments: Seq<Seq<char>>,
    pub modifier: Modifier,
}

/// Add the named members to the named departments.
#[derive(Clone, Debug, PartialEq, Eq, Hash)]
pub struct OperationAdd {
    pub names: Vec<String>,
    pub departments: Vec<String>,
    pub modifier: Modifier,
}

impl View for OperationAdd {
    type V = SpecOperationAdd;

    open spec fn view(&self) -> SpecOperationAdd {
        SpecOperationAdd {
            names: self.names.deep_view(),
            departments: self.departments.deep_view(),
            modifier: self.modifier,
        }
    }
}

pub open spec fn spec_render_add(op: SpecOperationAdd) -> Seq<char> {
    "Add"@ + " "@ + spec_list_text(op.names) + " to "@ + spec_list_text(op.departments)
        + spec_fmt_modifier(op.modifier)
}

impl OperationAdd {
    #[inline]
    pub fn new(departments: Vec<String>, names: Vec<String>, modifier: Modifier) -> (r: Self)
        ensures
            r@ == (SpecOperationAdd {
                names: names.deep_view(),
                departments: departments.deep_view(),
                modifier,
            }),
    {
        Self { departments, names, modifier }
    }

    pub fn keyword() -> (r: &'static str)
        ensures
            r@ == "Add"@,
    {
        "Add"
    }

    #[inline]
    pub fn modifier(&self) -> (m: Modifier)
        ensures
            m == self@.modifier,
    {
        self.modifier
    }

    /// Replaces the modifier; every modifier is accepted here.
    #[inline]
    pub fn set_modifier(self, modifier: Modifier) -> (r: Option<Self>)
        ensures
            match r {
                Option::Some(op) => op@ == (SpecOperationAdd {
                    names: self@.names,
                    departments: self@.departments,
                    modifier,
                }),
                Option::None => false,
            },
    {
        Some(Self { departments: self.departments, names: self.names, modifier })
    }

    /// The canonical text of this operation.
    pub fn render(&self) -> (r: String)
        ensures
            r@ == spec_render_add(self@),
    {
        let mut out = String::new();
        out.append(Self::keyword());
        out.append(" ");
        let names = fmt_list(&self.names);
        out.append(names.as_str());
        out.append(" to ");
        let deps = fmt_list(&self.departments);
        out.append(deps.as_str());
        let m = fmt_modifier(self.modifier);
        out.append(m.as_str());
        proof {
            assert(out@ =~= spec_render_add(self@));
        }
        out
    }
}

#[verifier::ext_equal]
pub struct SpecOperationCreate {
    pub departments: Seq<Seq<char>>,
    pub modifier: Modifier,
}

/// Create the named departments.
#[derive(Clone, Debug, PartialEq, Eq, Hash)]
pub struct OperationCreate {
    pub departments: Vec<String>,
    pub modifier: Modifier,
}

impl View for OperationCreate {
    type V = SpecOperationCreate;

    open spec fn view(&self) -> SpecOperationCreate {
        SpecOperationCreate { departments: self.departments.deep_view(), modifier: self.modifier }
    }
}

pub open spec fn spec_render_create(op: SpecOperationCreate) -> Seq<char> {
    "Create"@ + " "@ + spec_list_text(op.departments) + spec_fmt_modifier(op.modifier)
}

impl OperationCreate {
    #[inline]
    pub fn new(departments: Vec<String>, modifier: Modifier) -> (r: Self)
        ensures
            r@ == (SpecOperationCreate { departments: departments.deep_view(), modifier }),
    {
        Self { departments, modifier }
    }

    pub fn keyword() -> (r: &'static str)
        ensures
            r@ == "Create"@,
    {
        "Create"
    }

    #[inline]
    pub fn modifier(&self) -> (m: Modifier)
        ensures
            m == self@.modifier,
    {
        self.modifier
    }

    /// Replaces the modifier; every modifier is accepted here.
    #[inline]
    pub fn set_modifier(self, modifier: Modifier) -> (r: Option<Self>)
        ensures
            match r {
                Option::Some(op) => op@ == (SpecOperationCreate {
                    departments: self@.departments,
                    modifier,
                }),
                Option::None => false,
            },
    {
        Some(Self { departments: self.departments, modifier })
    }

    /// The canonical text of this operation.
    pub fn render(&self) -> (r: String)
        ensures
            r@ == spec_render_create(self@),
    {
        let mut out = String::new();
        out.append(Self::keyword());
        out.append(" ");
        let deps = fmt_list(&self.departments);
        out.append(deps.as_str());
        let m = fmt_modifier(self.modifier);
        out.append(m.as_str());
        proof {
            assert(out@ =~= spec_render_create(self@));
        }
        out
    }
}

#[verifier::ext_equal]
pub struct SpecOperationRemove {
    pub names: Seq<Seq<char>>,
    pub departments: Seq<Seq<char>>,
    pub modifier: Modifier,
}

/// Remove the named members from the named departments, or the departments
/// themselves when no names are given.
#[derive(Clone, Debug, PartialEq, Eq, Hash)]
pub struct OperationRemove {
    pub names: Vec<String>,
    pub departments: Vec<String>,
    pub modifier: Modifier,
}

impl View for OperationRemove {
    type V = SpecOperationRemove;

    open spec fn view(&self) -> SpecOperationRemove {
        SpecOperationRemove {
            names: self.names.deep_view(),
            departments: self.departments.deep_view(),
            modifier: self.modifier,
        }
    }
}

pub open spec fn spec_render_remove(op: SpecOperationRemove) -> Seq<char> {
    "Remove"@ + (if op.names.len() == 0 {
        Seq::<char>::empty()
    } else {
        " "@ + spec_list_text(op.names) + " from"@
    }) + " "@ + spec_list_text(op.departments) + spec_fmt_modifier(op.modifier)
}

impl OperationRemove {
    #[inline]
    pub fn new(departments: Vec<String>, names: Vec<String>, fail_silently: bool) -> (r: Self)
        ensures
            r@ == (SpecOperationRemove {
                names: names.deep_view(),
                departments: departments.deep_view(),
                modifier: if fail_silently {
                    Modifier::FailSilently
                } else {
                    Modifier::Plain
                },
            }),
    {
        Self {
            departments,
            names,
            modifier: if fail_silently {
                Modifier::FailSilently
            } else {
                Modifier::Plain
            },
        }
    }

    pub fn keyword() -> (r: &'static str)
        ensures
            r@ == "Remove"@,
    {
        "Remove"
    }

    #[inline]
    pub fn modifier(&self) -> (m: Modifier)
        ensures
            m == self@.modifier,
    {
        self.modifier
    }

    /// Replaces the modifier; overwriting is not meaningful for removal, so
    /// `Modifier::Overwrite` is refused.
    #[inline]
    pub fn set_modifier(self, modifier: Modifier) -> (r: Option<Self>)
        ensures
            match r {
                Option::Some(op) => !(modifier is Overwrite) && op@ == (SpecOperationRemove {
                    names: self@.names,
                    departments: self@.departments,
                    modifier,
                }),
                Option::None => modifier is Overwrite,
            },
    {
        match modifier {
            Modifier::FailSilently | Modifier::Plain => Some(
                Self { departments: self.departments, names: self.names, modifier },
            ),
            _ => None,
        }
    }

    /// The canonical text of this operation.
    pub fn render(&self) -> (r: String)
        ensures
            r@ == spec_render_remove(self@),
    {
        let mut out = String::new();
        out.append(Self::keyword());
        if self.names.len() > 0 {
            out.append(" ");
            let names = fmt_list(&self.names);
            out.append(names.as_str());
            out.append(" from");
        }
        out.append(" ");
        let deps = fmt_list(&self.departments);
        out.append(deps.as_str());
        let m = fmt_modifier(self.modifier);
        out.append(m.as_str());
        proof {
            assert(out@ =~= spec_render_remove(self@));
        }
        out
    }
}

#[verifier::ext_equal]
pub struct SpecOperationShow {
    pub departments: Seq<Seq<char>>,
    pub modifier: Modifier,
}

/// Show the named departments.
#[derive(Clone, Debug, PartialEq, Eq, Hash)]
pub struct OperationShow {
    pub departments: Vec<String>,
    pub modifier: Modifier,
}

impl View for OperationShow {
    type V = SpecOperationShow;

    open spec fn view(&self) -> SpecOperationShow {
        SpecOperationShow { departments: self.departments.deep_view(), modifier: self.modifier }
    }
}

pub open spec fn spec_render_show(op: SpecOperationShow) -> Seq<char> {
    "Show"@ + " "@ + spec_list_text(op.departments) + spec_fmt_modifier(op.modifier)
}

impl OperationShow {
    #[inline]
    pub fn new(departments: Vec<String>, fail_silently: bool) -> (r: Self)
        ensures
            r@ == (SpecOperationShow {
                departments: departments.deep_view(),
                modifier: if fail_silently {
                    Modifier::FailSilently
                } else {
                    Modifier::Plain
                },
            }),
    {
        Self {
            departments,
            modifier: if fail_silently {
                Modifier::FailSilently
            } else {
                Modifier::Plain
            },
        }
    }

    pub fn keyword() -> (r: &'static str)
        ensures
            r@ == "Show"@,
    {
        "Show"
    }

    #[inline]
    pub fn modifier(&self) -> (m: Modifier)
        ensures
            m == self@.modifier,
    {
        self.modifier
    }

    /// Replaces the modifier; overwriting is not meaningful here, so
    /// `Modifier::Overwrite` is refused.
    #[inline]
    pub fn set_modifier(self, modifier: Modifier) -> (r: Option<Self>)
        ensures
            match r {
                Option::Some(op) => !(modifier is Overwrite) && op@ == (SpecOperationShow {
                    departments: self@.departments,
                    modifier,
                }),
                Option::None => modifier is Overwrite,
            },
    {
        match modifier {
            Modifier::FailSilently | Modifier::Plain => Some(
                Self { departments: self.departments, modifier },
            ),
            _ => None,
        }
    }

    /// The canonical text of this operation.
    pub fn render(&self) -> (r: String)
        ensures
            r@ == spec_render_show(self@),
    {
        let mut out = String::new();
        out.append(Self::keyword());
        out.append(" ");
        let deps = fmt_list(&self.departments);
        out.append(deps.as_str());
        let m = fmt_modifier(self.modifier);
        out.append(m.as_str());
        proof {
            assert(out@ =~= spec_render_show(self@));
        }
        out
    }
}

// ---------------------------------------------------------------------------
// The tagged operation
// ---------------------------------------------------------------------------
#[verifier::ext_equal]
pub enum SpecOperation {
    Add(SpecOperationAdd),
    Create(SpecOperationCreate),
    Remove(SpecOperationRemove),
    Show(SpecOperationShow),
    Unknown,
}

/// One parsed command, or the `Unknown` sentinel that no successful parse
/// produces.
#[derive(Clone, Debug, PartialEq, Eq, Hash)]
pub enum Operation {
    Add(OperationAdd),
    Create(OperationCreate),
    Remove(OperationRemove),
    Show(OperationShow),
    Unknown,
}

impl View for Operation {
    type V = SpecOperation;

    open spec fn view(&self) -> SpecOperation {
        match self {
            Operation::Add(op) => SpecOperation::Add(op@),
            Operation::Create(op) => SpecOperation::Create(op@),
            Operation::Remove(op) => SpecOperation::Remove(op@),
            Operation::Show(op) => SpecOperation::Show(op@),
            Operation::Unknown => SpecOperation::Unknown,
        }
    }
}

pub open spec fn op_views(ops: Seq<Operation>) -> Seq<SpecOperation> {
    ops.map_values(|o: Operation| o@)
}

pub open spec fn spec_op_modifier(op: SpecOperation) -> Modifier {
    match op {
        SpecOperation::Add(a) => a.modifier,
        SpecOperation::Create(c) => c.modifier,
        SpecOperation::Remove(r) => r.modifier,
        SpecOperation::Show(s) => s.modifier,
        SpecOperation::Unknown => Modifier::Plain,
    }
}

/// What replacing the modifier gives: the same operation with the new
/// modifier, or nothing where that modifier (or the sentinel) refuses it.
pub open spec fn spec_set_modifier(op: SpecOperation, m: Modifier) -> Option<SpecOperation> {
    match op {
        SpecOperation::Add(a) => Option::Some(
            SpecOperation::Add(
                SpecOperationAdd { names: a.names, departments: a.departments, modifier: m },
            ),
        ),
        SpecOperation::Create(c) => Option::Some(
            SpecOperation::Create(
                SpecOperationCreate { departments: c.departments, modifier: m },
            ),
        ),
        SpecOperation::Remove(r) => if m is Overwrite {
            Option::None
        } else {
            Option::Some(
                SpecOperation::Remove(
                    SpecOperationRemove { names: r.names, departments: r.departments, modifier: m },
                ),
            )
        },
        SpecOperation::Show(s) => if m is Overwrite {
            Option::None
        } else {
            Option::Some(
                SpecOperation::Show(SpecOperationShow { departments: s.departments, modifier: m }),
            )
        },
        SpecOperation::Unknown => Option::None,
    }
}

pub open spec fn spec_op_keyword(op: SpecOperation) -> Seq<char> {
    match op {
        SpecOperation::Add(_) => "Add"@,
        SpecOperation::Create(_) => "Create"@,
        SpecOperation::Remove(_) => "Remove"@,
        SpecOperation::Show(_) => "Show"@,
        SpecOperation::Unknown => "Unknown"@,
    }
}

pub open spec fn spec_render_op(op: SpecOperation) -> Seq<char> {
    match op {
        SpecOperation::Add(a) => spec_render_add(a),
        SpecOperation::Create(c) => spec_render_create(c),
        SpecOperation::Remove(r) => spec_render_remove(r),
        SpecOperation::Show(s) => spec_render_show(s),
        SpecOperation::Unknown => "Unknown"@,
    }
}

impl Operation {
    pub fn modifier(&self) -> (m: Modifier)
        ensures
            m == spec_op_modifier(self@),
    {
        match self {
            Operation::Add(op) => op.modifier(),
            Operation::Create(op) => op.modifier(),
            Operation::Remove(op) => op.modifier(),
            Operation::Show(op) => op.modifier(),
            Operation::Unknown => Modifier::Plain,
        }
    }

    pub fn set_modifier(self, modifier: Modifier) -> (r: Option<Self>)
        ensures
            match r {
                Option::Some(op) => spec_set_modifier(self@, modifier) == Option::Some(op@),
                Option::None => spec_set_modifier(self@, modifier) is None,
            },
    {
        match self {
            Operation::Add(op) => match op.set_modifier(modifier) {
                Option::Some(op) => Some(Operation::Add(op)),
                Option::None => None,
            },
            Operation::Create(op) => match op.set_modifier(modifier) {
                Option::Some(op) => Some(Operation::Create(op)),
                Option::None => None,
            },
            Operation::Remove(op) => match op.set_modifier(modifier) {
                Option::Some(op) => Some(Operation::Remove(op)),
                Option::None => None,
            },
            Operation::Show(op) => match op.set_modifier(modifier) {
                Option::Some(op) => Some(Operation::Show(op)),
                Option::None => None,
            },
            Operation::Unknown => None,
        }
    }

    pub fn keyword(&self) -> (r: &'static str)
        ensures
            r@ == spec_op_keyword(self@),
    {
        match self {
            Operation::Add(_) => OperationAdd::keyword(),
            Operation::Create(_) => OperationCreate::keyword(),
            Operation::Remove(_) => OperationRemove::keyword(),
            Operation::Show(_) => OperationShow::keyword(),
            Operation::Unknown => "Unknown",
        }
    }

    /// The canonical text of this operation.
    pub fn render(&self) -> (r: String)
        ensures
            r@ == spec_render_op(self@),
    {
        match self {
            Operation::Add(op) => op.render(),
            Operation::Create(op) => op.render(),
            Operation::Remove(op) => op.render(),
            Operation::Show(op) => op.render(),
            Operation::Unknown => {
                let mut out = String::new();
                out.append("Unknown");
                proof {
                    assert(out@ =~= "Unknown"@);
                }
                out
            },
        }
    }
}

impl From<OperationAdd> for Operation {
    fn from(op: OperationAdd) -> (r: Operation) {
        Operation::Add(op)
    }
}

impl vstd::std_specs::convert::FromSpecImpl<OperationAdd> for Operation {
    open spec fn obeys_from_spec() -> bool {
        true
    }

    open spec fn from_spec(op: OperationAdd) -> Operation {
        Operation::Add(op)
    }
}

impl From<OperationCreate> for Operation {
    fn from(op: OperationCreate) -> (r: Operation) {
        Operation::Create(op)
    }
}

impl vstd::std_specs::convert::FromSpecImpl<OperationCreate> for Operation {
    open spec fn obeys_from_spec() -> bool {
        true
    }

    open spec fn from_spec(op: OperationCreate) -> Operation {
        Operation::Create(op)
    }
}

impl From<OperationRemove> for Operation {
    fn from(op: OperationRemove) -> (r: Operation) {
        Operation::Remove(op)
    }
}

impl vstd::std_specs::convert::FromSpecImpl<OperationRemove> for Operation {
    open spec fn obeys_from_spec() -> bool {
        true
    }

    open spec fn from_spec(op: OperationRemove) -> Operation {
        Operation::Remove(op)
    }
}

impl From<OperationShow> for Operation {
    fn from(op: OperationShow) -> (r: Operation) {
        Operation::Show(op)
    }
}

impl vstd::std_specs::convert::FromSpecImpl<OperationShow> for Operation {
    open spec fn obeys_from_spec() -> bool {
        true
    }

    open spec fn from_spec(op: OperationShow) -> Operation {
        Operation::Show(op)
    }
}

} // verus!
