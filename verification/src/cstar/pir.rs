//! C* physical intermediate representation (PIR).
//!
//! PIR is independent of any interpreter value: it holds raw pointers, linear
//! ownership, sections, interrupt records, package metadata, firmware patch
//! metadata, prefetch markers, DMA/pipeline markers and inline assembly.

use vstd::prelude::*;
use crate::text::{text, texts};

verus! {

// ---------------------------------------------------------------------------
// Types and operands
// ---------------------------------------------------------------------------

/// A physical type.
#[derive(Debug)]
pub enum PirType {
    Void,
    I1,
    I8,
    I32,
    I64,
    F64,
    Ptr(Box<PirType>),
}

/// The LLVM name of a physical type.
pub open spec fn llvm_name(t: PirType) -> Seq<char>
    decreases t,
{
    match t {
        PirType::Void => "void"@,
        PirType::I1 => "i1"@,
        PirType::I8 => "i8"@,
        PirType::I32 => "i32"@,
        PirType::I64 => "i64"@,
        PirType::F64 => "double"@,
        PirType::Ptr(inner) => llvm_name(*inner) + "*"@,
    }
}

/// The pointer to `t`.
pub open spec fn ptr_to(t: PirType) -> PirType {
    PirType::Ptr(Box::new(t))
}

impl PirType {
    /// Whether the type is a pointer.
    pub fn is_ptr(&self) -> (r: bool)
        ensures
            r == (*self is Ptr),
    {
        match self {
            PirType::Ptr(_) => true,
            _ => false,
        }
    }

    /// The LLVM name of the type.
    pub fn llvm(&self) -> (r: String)
        ensures
            r@ == llvm_name(*self),
        decreases self,
    {
        match self {
            PirType::Void => text("void"),
            PirType::I1 => text("i1"),
            PirType::I8 => text("i8"),
            PirType::I32 => text("i32"),
            PirType::I64 => text("i64"),
            PirType::F64 => text("double"),
            PirType::Ptr(inner) => {
                let mut s = inner.llvm();
                s.append("*");
                s
            },
        }
    }

    /// The pointer to bytes.
    pub fn ptr_erased() -> (r: Self)
        ensures
            r == ptr_to(PirType::I8),
    {
        PirType::Ptr(Box::new(PirType::I8))
    }

    /// The same type again.
    pub fn copy(&self) -> (r: Self)
        ensures
            r == *self,
        decreases self,
    {
        match self {
            PirType::Void => PirType::Void,
            PirType::I1 => PirType::I1,
            PirType::I8 => PirType::I8,
            PirType::I32 => PirType::I32,
            PirType::I64 => PirType::I64,
            PirType::F64 => PirType::F64,
            PirType::Ptr(inner) => PirType::Ptr(Box::new(inner.copy())),
        }
    }
}

/// An operand of a PIR node.
#[derive(Debug)]
pub enum PirOperand {
    Var(String),
    Int(i64),
    Bool(bool),
    NullPtr,
}

/// What an operand is.
pub enum Operand {
    Var(Seq<char>),
    Int(i64),
    Bool(bool),
    NullPtr,
}

impl View for PirOperand {
    type V = Operand;

    open spec fn view(&self) -> Operand {
        match self {
            PirOperand::Var(v) => Operand::Var(v@),
            PirOperand::Int(i) => Operand::Int(*i),
            PirOperand::Bool(b) => Operand::Bool(*b),
            PirOperand::NullPtr => Operand::NullPtr,
        }
    }
}

impl PirOperand {
    /// The variable that the operand names.
    pub fn as_var(&self) -> (r: Option<&str>)
        ensures
            match r {
                Some(v) => self@ == Operand::Var(v@),
                None => !(self@ is Var),
            },
    {
        match self {
            PirOperand::Var(v) => Some(v.as_str()),
            _ => None,
        }
    }
}

// ---------------------------------------------------------------------------
// Nodes
// ---------------------------------------------------------------------------

/// A PIR node.
#[derive(Debug)]
#[allow(inconsistent_fields)]
pub enum PirNode {
    /// A pointer load, such as `set, v = p.load()`.
    Load { dst: String, ptr: PirOperand, ty: PirType, volatile: bool },
    /// A pointer store, such as `p.store(v)` or `p[i] = v`.
    Store { ptr: PirOperand, value: PirOperand, ty: PirType, volatile: bool },
    /// A direct raw call; `free` and `consume` are linear effects.
    Call { dst: Option<String>, func: String, args: Vec<PirOperand>, ret_ty: PirType },
    /// An inline assembly block.
    AsmBlock { template: String, inputs: Vec<PirOperand>, outputs: Vec<String> },
    /// `malloc(n) as ptr[T]`: creates a resource that must be consumed.
    AllocLinear { dst: String, bytes: PirOperand, ty: PirType },
    /// `move(p) as ptr[T]`: transfers linear ownership.
    Move { dst: String, src: String, ty: PirType },
    /// `consume(p)`: consumes a resource.
    Consume { var: String },
    /// The `@pipeline` marker.
    Pipeline { function: String, priority: String, dma_stage: String, compute_stage: String },
    /// The `@prefetch` marker.
    Prefetch { ptr: Option<PirOperand>, hint: String, stride: i64 },
    /// A physical loop.
    Loop { label: String, body: Vec<PirNode> },
    /// A while loop with its condition as LLVM text.
    WhileLoop { label: String, condition: String, body: Vec<PirNode> },
    /// The `@patch` metadata.
    PatchMarker { function: String, base: String, output: String },
    /// The physical layout of a package.
    PackageMarker { name: String, partition: String, size: u64, offset: u64, checksum: u64 },
    /// A comment in the LLVM text.
    Comment(String),
    /// An integer operation on two operands.
    BinOp { dst: String, op: String, lhs: PirOperand, rhs: PirOperand, ty: PirType },
}

/// What a node is.
#[allow(inconsistent_fields)]
pub enum Node {
    Load { dst: Seq<char>, ptr: Operand, ty: PirType, volatile: bool },
    Store { ptr: Operand, value: Operand, ty: PirType, volatile: bool },
    Call { dst: Option<Seq<char>>, func: Seq<char>, args: Seq<Operand>, ret_ty: PirType },
    AsmBlock { template: Seq<char>, inputs: Seq<Operand>, outputs: Seq<Seq<char>> },
    AllocLinear { dst: Seq<char>, bytes: Operand, ty: PirType },
    Move { dst: Seq<char>, src: Seq<char>, ty: PirType },
    Consume { var: Seq<char> },
    Pipeline {
        function: Seq<char>,
        priority: Seq<char>,
        dma_stage: Seq<char>,
        compute_stage: Seq<char>,
    },
    Prefetch { ptr: Option<Operand>, hint: Seq<char>, stride: i64 },
    Loop { label: Seq<char>, body: Seq<Node> },
    WhileLoop { label: Seq<char>, condition: Seq<char>, body: Seq<Node> },
    PatchMarker { function: Seq<char>, base: Seq<char>, output: Seq<char> },
    PackageMarker {
        name: Seq<char>,
        partition: Seq<char>,
        size: u64,
        offset: u64,
        checksum: u64,
    },
    Comment(Seq<char>),
    BinOp { dst: Seq<char>, op: Seq<char>, lhs: Operand, rhs: Operand, ty: PirType },
}

/// The text of an optional string.
pub open spec fn opt_view(s: Option<String>) -> Option<Seq<char>> {
    match s {
        Some(x) => Some(x@),
        None => None,
    }
}

/// The operands of a list.
pub open spec fn operands(v: Seq<PirOperand>) -> Seq<Operand> {
    Seq::new(v.len(), |i: int| v[i]@)
}

/// What the node is.
pub open spec fn node_of(n: PirNode) -> Node
    decreases n,
{
    match n {
        PirNode::Load { dst, ptr, ty, volatile } => Node::Load {
            dst: dst@,
            ptr: ptr@,
            ty,
            volatile,
        },
        PirNode::Store { ptr, value, ty, volatile } => Node::Store {
            ptr: ptr@,
            value: value@,
            ty,
            volatile,
        },
        PirNode::Call { dst, func, args, ret_ty } => Node::Call {
            dst: opt_view(dst),
            func: func@,
            args: operands(args@),
            ret_ty,
        },
        PirNode::AsmBlock { template, inputs, outputs } => Node::AsmBlock {
            template: template@,
            inputs: operands(inputs@),
            outputs: texts(outputs@),
        },
        PirNode::AllocLinear { dst, bytes, ty } => Node::AllocLinear {
            dst: dst@,
            bytes: bytes@,
            ty,
        },
        PirNode::Move { dst, src, ty } => Node::Move { dst: dst@, src: src@, ty },
        PirNode::Consume { var } => Node::Consume { var: var@ },
        PirNode::Pipeline { function, priority, dma_stage, compute_stage } => Node::Pipeline {
            function: function@,
            priority: priority@,
            dma_stage: dma_stage@,
            compute_stage: compute_stage@,
        },
        PirNode::Prefetch { ptr, hint, stride } => Node::Prefetch {
            ptr: match ptr {
                Some(p) => Some(p@),
                None => None,
            },
            hint: hint@,
            stride,
        },
        PirNode::Loop { label, body } => Node::Loop { label: label@, body: nodes_of(body@) },
        PirNode::WhileLoop { label, condition, body } => Node::WhileLoop {
            label: label@,
            condition: condition@,
            body: nodes_of(body@),
        },
        PirNode::PatchMarker { function, base, output } => Node::PatchMarker {
            function: function@,
            base: base@,
            output: output@,
        },
        PirNode::PackageMarker { name, partition, size, offset, checksum } => Node::PackageMarker {
            name: name@,
            partition: partition@,
            size,
            offset,
            checksum,
        },
        PirNode::Comment(t) => Node::Comment(t@),
        PirNode::BinOp { dst, op, lhs, rhs, ty } => Node::BinOp {
            dst: dst@,
            op: op@,
            lhs: lhs@,
            rhs: rhs@,
            ty,
        },
    }
}

/// What the nodes of a list are.
pub open spec fn nodes_of(ns: Seq<PirNode>) -> Seq<Node>
    decreases ns,
{
    Seq::new(
        ns.len(),
        |i: int|
            if 0 <= i < ns.len() {
                node_of(ns[i])
            } else {
                arbitrary()
            },
    )
}

impl View for PirNode {
    type V = Node;

    open spec fn view(&self) -> Node {
        node_of(*self)
    }
}

/// Appends a node.
pub fn push_node(out: &mut Vec<PirNode>, n: PirNode)
    ensures
        nodes_of(final(out)@) == nodes_of(old(out)@).push(n@),
{
    out.push(n);
    assert(nodes_of(out@) =~= nodes_of(old(out)@).push(n@));
}

// ---------------------------------------------------------------------------
// Programs
// ---------------------------------------------------------------------------

/// A function in PIR.
#[derive(Debug)]
pub struct PirFunction {
    pub name: String,
    pub params: Vec<(String, PirType)>,
    pub ret_ty: PirType,
    pub body: Vec<PirNode>,
    pub section: Option<String>,
    pub is_pipeline: bool,
    pub is_prefetch: bool,
}

/// What a function is.
pub struct Function {
    pub name: Seq<char>,
    pub params: Seq<(Seq<char>, PirType)>,
    pub ret_ty: PirType,
    pub body: Seq<Node>,
    pub section: Option<Seq<char>>,
    pub is_pipeline: bool,
    pub is_prefetch: bool,
}

/// The parameters of a function.
pub open spec fn params_of(v: Seq<(String, PirType)>) -> Seq<(Seq<char>, PirType)> {
    Seq::new(v.len(), |i: int| (v[i].0@, v[i].1))
}

impl View for PirFunction {
    type V = Function;

    open spec fn view(&self) -> Function {
        Function {
            name: self.name@,
            params: params_of(self.params@),
            ret_ty: self.ret_ty,
            body: nodes_of(self.body@),
            section: opt_view(self.section),
            is_pipeline: self.is_pipeline,
            is_prefetch: self.is_prefetch,
        }
    }
}

/// A function that is declared only.
#[derive(Debug)]
pub struct PirExtern {
    pub name: String,
    pub params: Vec<PirType>,
    pub ret_ty: PirType,
    pub link: String,
}

/// What a declaration is.
pub struct Declared {
    pub name: Seq<char>,
    pub params: Seq<PirType>,
    pub ret_ty: PirType,
    pub link: Seq<char>,
}

impl View for PirExtern {
    type V = Declared;

    open spec fn view(&self) -> Declared {
        Declared {
            name: self.name@,
            params: self.params@,
            ret_ty: self.ret_ty,
            link: self.link@,
        }
    }
}

/// An interrupt handler with its budget.
#[derive(Debug)]
pub struct IsrEntry {
    pub handler: String,
    pub priority: i64,
    pub budget_us: i64,
    pub wcet_cycles: u64,
}

/// What an interrupt record is.
pub struct Isr {
    pub handler: Seq<char>,
    pub priority: i64,
    pub budget_us: i64,
    pub wcet_cycles: u64,
}

impl View for IsrEntry {
    type V = Isr;

    open spec fn view(&self) -> Isr {
        Isr {
            handler: self.handler@,
            priority: self.priority,
            budget_us: self.budget_us,
            wcet_cycles: self.wcet_cycles,
        }
    }
}

/// A function to be patched.
#[derive(Debug)]
pub struct PatchPlan {
    pub function: String,
    pub base: String,
    pub output: String,
}

/// What a patch plan is.
pub struct Patch {
    pub function: Seq<char>,
    pub base: Seq<char>,
    pub output: Seq<char>,
}

impl View for PatchPlan {
    type V = Patch;

    open spec fn view(&self) -> Patch {
        Patch { function: self.function@, base: self.base@, output: self.output@ }
    }
}

/// A package with its place.
#[derive(Debug)]
pub struct PackageEntry {
    pub name: String,
    pub partition: String,
    pub size: u64,
    pub offset: u64,
    pub checksum: u64,
}

/// What a package entry is.
pub struct Package {
    pub name: Seq<char>,
    pub partition: Seq<char>,
    pub size: u64,
    pub offset: u64,
    pub checksum: u64,
}

impl View for PackageEntry {
    type V = Package;

    open spec fn view(&self) -> Package {
        Package {
            name: self.name@,
            partition: self.partition@,
            size: self.size,
            offset: self.offset,
            checksum: self.checksum,
        }
    }
}

/// The package repositories and their outputs.
#[derive(Debug)]
pub struct RepoConfig {
    pub enabled: bool,
    pub sources: Vec<String>,
    pub split_by: String,
    pub output_header: String,
    pub output_map: String,
    pub output_binary: String,
}

/// What a repository configuration is.
pub struct Repo {
    pub enabled: bool,
    pub sources: Seq<Seq<char>>,
    pub split_by: Seq<char>,
    pub output_header: Seq<char>,
    pub output_map: Seq<char>,
    pub output_binary: Seq<char>,
}

impl View for RepoConfig {
    type V = Repo;

    open spec fn view(&self) -> Repo {
        Repo {
            enabled: self.enabled,
            sources: texts(self.sources@),
            split_by: self.split_by@,
            output_header: self.output_header@,
            output_map: self.output_map@,
            output_binary: self.output_binary@,
        }
    }
}

/// No repository.
pub open spec fn no_repo() -> Repo {
    Repo {
        enabled: false,
        sources: Seq::empty(),
        split_by: Seq::empty(),
        output_header: Seq::empty(),
        output_map: Seq::empty(),
        output_binary: Seq::empty(),
    }
}

impl Default for RepoConfig {
    fn default() -> (r: Self)
        ensures
            r@ == no_repo(),
    {
        let r = RepoConfig {
            enabled: false,
            sources: Vec::new(),
            split_by: String::new(),
            output_header: String::new(),
            output_map: String::new(),
            output_binary: String::new(),
        };
        assert(r@.sources =~= Seq::<Seq<char>>::empty());
        r
    }
}

/// An entry of the interrupt vector table.
#[derive(Debug)]
pub struct VectorTableEntry {
    /// The exception: `reset`, `nmi`, `hard_fault`, `svcall`, `pendsv`,
    /// `systick`, or `irq0`, `irq1` and so on.
    pub name: String,
    /// The handler function.
    pub handler: String,
    /// The number of an external interrupt.
    pub irq_number: Option<i64>,
}

/// What a vector table entry is.
pub struct Vector {
    pub name: Seq<char>,
    pub handler: Seq<char>,
    pub irq_number: Option<i64>,
}

impl View for VectorTableEntry {
    type V = Vector;

    open spec fn view(&self) -> Vector {
        Vector { name: self.name@, handler: self.handler@, irq_number: self.irq_number }
    }
}

/// The memory of the target.
#[derive(Debug, Clone, Copy, PartialEq, Eq, Structural)]
pub struct MemoryMap {
    pub flash_origin: u64,
    pub flash_length: u64,
    pub sram_origin: u64,
    pub sram_length: u64,
    pub mmio_origin: Option<u64>,
    pub mmio_length: Option<u64>,
}

/// A memory map with nothing in it.
pub open spec fn no_memory() -> MemoryMap {
    MemoryMap {
        flash_origin: 0,
        flash_length: 0,
        sram_origin: 0,
        sram_length: 0,
        mmio_origin: None,
        mmio_length: None,
    }
}

impl Default for MemoryMap {
    fn default() -> (r: Self)
        ensures
            r == no_memory(),
    {
        MemoryMap {
            flash_origin: 0,
            flash_length: 0,
            sram_origin: 0,
            sram_length: 0,
            mmio_origin: None,
            mmio_length: None,
        }
    }
}

/// The configuration of the task scheduler.
#[derive(Debug, Clone, Copy, PartialEq, Eq, Structural)]
pub struct SchedulerConfig {
    pub tick_ms: u64,
    pub max_tasks: u64,
    pub stack_size: u64,
}

/// A program in PIR.
#[derive(Debug)]
pub struct PirProgram {
    pub nodes: Vec<PirNode>,
    pub functions: Vec<PirFunction>,
    pub externs: Vec<PirExtern>,
    pub isr_entries: Vec<IsrEntry>,
    pub patch_plans: Vec<PatchPlan>,
    pub packages: Vec<PackageEntry>,
    pub repo: RepoConfig,
    pub needs_linker_script: bool,
    /// The interrupt vector table.
    pub vector_table: Vec<VectorTableEntry>,
    /// The memory map, for the linker script.
    pub memory_map: Option<MemoryMap>,
    /// The stack size in bytes.
    pub stack_size: Option<u64>,
    /// The heap size in bytes.
    pub heap_size: Option<u64>,
    /// The functions that run with interrupts disabled.
    pub critical_sections: Vec<String>,
    /// The scheduler.
    pub scheduler: Option<SchedulerConfig>,
    /// Addresses with the handlers of their hardware breakpoints.
    pub hw_breakpoints: Vec<(u64, String)>,
}

/// What a program is.
pub struct Pir {
    pub nodes: Seq<Node>,
    pub functions: Seq<Function>,
    pub externs: Seq<Declared>,
    pub isr_entries: Seq<Isr>,
    pub patch_plans: Seq<Patch>,
    pub packages: Seq<Package>,
    pub repo: Repo,
    pub needs_linker_script: bool,
    pub vector_table: Seq<Vector>,
    pub memory_map: Option<MemoryMap>,
    pub stack_size: Option<u64>,
    pub heap_size: Option<u64>,
    pub critical_sections: Seq<Seq<char>>,
    pub scheduler: Option<SchedulerConfig>,
    pub hw_breakpoints: Seq<(u64, Seq<char>)>,
}

impl Pir {
    /// The same program, which needs a linker script.
    pub open spec fn linked(self) -> Pir {
        Pir { needs_linker_script: true, ..self }
    }
}

/// The functions of a list.
pub open spec fn functions_of(v: Seq<PirFunction>) -> Seq<Function> {
    Seq::new(v.len(), |i: int| v[i]@)
}

/// The declarations of a list.
pub open spec fn externs_of(v: Seq<PirExtern>) -> Seq<Declared> {
    Seq::new(v.len(), |i: int| v[i]@)
}

/// The interrupt records of a list.
pub open spec fn isrs_of(v: Seq<IsrEntry>) -> Seq<Isr> {
    Seq::new(v.len(), |i: int| v[i]@)
}

/// The patch plans of a list.
pub open spec fn patches_of(v: Seq<PatchPlan>) -> Seq<Patch> {
    Seq::new(v.len(), |i: int| v[i]@)
}

/// The packages of a list.
pub open spec fn packages_of(v: Seq<PackageEntry>) -> Seq<Package> {
    Seq::new(v.len(), |i: int| v[i]@)
}

/// The vector table entries of a list.
pub open spec fn vectors_of(v: Seq<VectorTableEntry>) -> Seq<Vector> {
    Seq::new(v.len(), |i: int| v[i]@)
}

/// The breakpoints of a list.
pub open spec fn breakpoints_of(v: Seq<(u64, String)>) -> Seq<(u64, Seq<char>)> {
    Seq::new(v.len(), |i: int| (v[i].0, v[i].1@))
}

impl View for PirProgram {
    type V = Pir;

    open spec fn view(&self) -> Pir {
        Pir {
            nodes: nodes_of(self.nodes@),
            functions: functions_of(self.functions@),
            externs: externs_of(self.externs@),
            isr_entries: isrs_of(self.isr_entries@),
            patch_plans: patches_of(self.patch_plans@),
            packages: packages_of(self.packages@),
            repo: self.repo@,
            needs_linker_script: self.needs_linker_script,
            vector_table: vectors_of(self.vector_table@),
            memory_map: self.memory_map,
            stack_size: self.stack_size,
            heap_size: self.heap_size,
            critical_sections: texts(self.critical_sections@),
            scheduler: self.scheduler,
            hw_breakpoints: breakpoints_of(self.hw_breakpoints@),
        }
    }
}

/// The empty program.
pub open spec fn no_program() -> Pir {
    Pir {
        nodes: Seq::empty(),
        functions: Seq::empty(),
        externs: Seq::empty(),
        isr_entries: Seq::empty(),
        patch_plans: Seq::empty(),
        packages: Seq::empty(),
        repo: no_repo(),
        needs_linker_script: false,
        vector_table: Seq::empty(),
        memory_map: None,
        stack_size: None,
        heap_size: None,
        critical_sections: Seq::empty(),
        scheduler: None,
        hw_breakpoints: Seq::empty(),
    }
}

impl Default for PirProgram {
    fn default() -> (r: Self)
        ensures
            r@ == no_program(),
    {
        let r = PirProgram {
            nodes: Vec::new(),
            functions: Vec::new(),
            externs: Vec::new(),
            isr_entries: Vec::new(),
            patch_plans: Vec::new(),
            packages: Vec::new(),
            repo: RepoConfig::default(),
            needs_linker_script: false,
            vector_table: Vec::new(),
            memory_map: None,
            stack_size: None,
            heap_size: None,
            critical_sections: Vec::new(),
            scheduler: None,
            hw_breakpoints: Vec::new(),
        };
        assert(r@.nodes =~= Seq::<Node>::empty());
        assert(r@.functions =~= Seq::<Function>::empty());
        assert(r@.externs =~= Seq::<Declared>::empty());
        assert(r@.isr_entries =~= Seq::<Isr>::empty());
        assert(r@.patch_plans =~= Seq::<Patch>::empty());
        assert(r@.packages =~= Seq::<Package>::empty());
        assert(r@.vector_table =~= Seq::<Vector>::empty());
        assert(r@.critical_sections =~= Seq::<Seq<char>>::empty());
        assert(r@.hw_breakpoints =~= Seq::<(u64, Seq<char>)>::empty());
        r
    }
}

impl PirProgram {
    /// Adds a top-level node.
    pub fn push(&mut self, node: PirNode)
        ensures
            final(self)@ == (Pir { nodes: old(self)@.nodes.push(node@), ..old(self)@ }),
    {
        push_node(&mut self.nodes, node);
    }

    /// Adds a function.
    pub fn push_function(&mut self, f: PirFunction)
        ensures
            final(self)@ == (Pir { functions: old(self)@.functions.push(f@), ..old(self)@ }),
    {
        self.functions.push(f);
        assert(self@.functions =~= old(self)@.functions.push(f@));
    }

    /// Adds a declaration.
    pub fn push_extern(&mut self, e: PirExtern)
        ensures
            final(self)@ == (Pir { externs: old(self)@.externs.push(e@), ..old(self)@ }),
    {
        self.externs.push(e);
        assert(self@.externs =~= old(self)@.externs.push(e@));
    }

    /// Adds an interrupt record.
    pub fn push_isr(&mut self, e: IsrEntry)
        ensures
            final(self)@ == (Pir { isr_entries: old(self)@.isr_entries.push(e@), ..old(self)@ })
                .linked(),
    {
        self.needs_linker_script = true;
        self.isr_entries.push(e);
        assert(self@.isr_entries =~= old(self)@.isr_entries.push(e@));
    }

    /// Adds a patch plan.
    pub fn push_patch(&mut self, p: PatchPlan)
        ensures
            final(self)@ == (Pir { patch_plans: old(self)@.patch_plans.push(p@), ..old(self)@ })
                .linked(),
    {
        self.needs_linker_script = true;
        self.patch_plans.push(p);
        assert(self@.patch_plans =~= old(self)@.patch_plans.push(p@));
    }

    /// Adds a package.
    pub fn push_package(&mut self, p: PackageEntry)
        ensures
            final(self)@ == (Pir { packages: old(self)@.packages.push(p@), ..old(self)@ }).linked(),
    {
        self.needs_linker_script = true;
        self.packages.push(p);
        assert(self@.packages =~= old(self)@.packages.push(p@));
    }

    /// Asks for a linker script.
    pub fn mark_linker_script(&mut self)
        ensures
            final(self)@ == old(self)@.linked(),
    {
        self.needs_linker_script = true;
    }

    /// Sets the repository configuration.
    pub fn enable_repo(&mut self, repo: RepoConfig)
        ensures
            final(self)@ == (Pir { repo: repo@, ..old(self)@ }).linked(),
    {
        self.repo = repo;
        self.needs_linker_script = true;
    }

    /// Adds a vector table entry.
    pub fn push_vector_entry(&mut self, entry: VectorTableEntry)
        ensures
            final(self)@ == (Pir {
                vector_table: old(self)@.vector_table.push(entry@),
                ..old(self)@
            }).linked(),
    {
        self.needs_linker_script = true;
        self.vector_table.push(entry);
        assert(self@.vector_table =~= old(self)@.vector_table.push(entry@));
    }

    /// Sets the memory map.
    pub fn set_memory_map(&mut self, map: MemoryMap)
        ensures
            final(self)@ == (Pir { memory_map: Some(map), ..old(self)@ }).linked(),
    {
        self.needs_linker_script = true;
        self.memory_map = Some(map);
    }

    /// Sets the stack size.
    pub fn set_stack_size(&mut self, size: u64)
        ensures
            final(self)@ == (Pir { stack_size: Some(size), ..old(self)@ }).linked(),
    {
        self.needs_linker_script = true;
        self.stack_size = Some(size);
    }

    /// Sets the heap size.
    pub fn set_heap_size(&mut self, size: u64)
        ensures
            final(self)@ == (Pir { heap_size: Some(size), ..old(self)@ }).linked(),
    {
        self.needs_linker_script = true;
        self.heap_size = Some(size);
    }

    /// Marks a function as a critical section.
    pub fn push_critical_section(&mut self, func_name: String)
        ensures
            final(self)@ == (Pir {
                critical_sections: old(self)@.critical_sections.push(func_name@),
                ..old(self)@
            }),
    {
        self.critical_sections.push(func_name);
        assert(self@.critical_sections =~= old(self)@.critical_sections.push(func_name@));
    }

    /// Sets the scheduler configuration.
    pub fn set_scheduler(&mut self, config: SchedulerConfig)
        ensures
            final(self)@ == (Pir { scheduler: Some(config), ..old(self)@ }).linked(),
    {
        self.needs_linker_script = true;
        self.scheduler = Some(config);
    }

    /// Adds a hardware breakpoint.
    pub fn push_hw_breakpoint(&mut self, addr: u64, handler: String)
        ensures
            final(self)@ == (Pir {
                hw_breakpoints: old(self)@.hw_breakpoints.push((addr, handler@)),
                ..old(self)@
            }),
    {
        self.hw_breakpoints.push((addr, handler));
        assert(self@.hw_breakpoints =~= old(self)@.hw_breakpoints.push((addr, handler@)));
    }
}

} // verus!
