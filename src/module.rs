//! The compiled module: its function tables, its assembled code, and the
//! linking of imports into reserved relocation slots.
use vstd::prelude::*;
use byteorder::{ByteOrder, LittleEndian};
use crate::types::SENTINEL;

verus! {

/// An imported function: where it comes from, and the offset in the
/// assembled code of the eight-byte slot that holds its address.
#[derive(Clone, Debug)]
pub struct ImportDescriptor {
    pub module: String,
    pub field: Option<String>,
    pub offset: usize,
}

/// The tables of a compiled module. Function indices count the imported
/// functions first, then the locally declared ones.
pub struct Module {
    n_imports: u32,
    entries: Vec<usize>,
    exports: Vec<(String, u32)>,
    imports: Vec<ImportDescriptor>,
}

/// A function index, as a way to name a function.
pub struct FunctionIndex(pub u32);

/// The eight bytes of `n`, least significant first.
pub open spec fn le_bytes(n: u64) -> Seq<u8> {
    seq![
        (n & 0xff) as u8,
        ((n >> 8) & 0xff) as u8,
        ((n >> 16) & 0xff) as u8,
        ((n >> 24) & 0xff) as u8,
        ((n >> 32) & 0xff) as u8,
        ((n >> 40) & 0xff) as u8,
        ((n >> 48) & 0xff) as u8,
        ((n >> 56) & 0xff) as u8,
    ]
}

/// `bytes` with the eight bytes at `offset` replaced by `le_bytes(n)`.
pub open spec fn patched(bytes: Seq<u8>, offset: int, n: u64) -> Seq<u8> {
    bytes.take(offset) + le_bytes(n) + bytes.skip(offset + 8)
}

/// The function index that export `name` names: the last export of that
/// name wins.
pub open spec fn export_lookup(exports: Seq<(String, u32)>, name: Seq<char>) -> Option<u32>
    decreases exports.len(),
{
    if exports.len() == 0 {
        None
    } else if exports.last().0@ == name {
        Some(exports.last().1)
    } else {
        export_lookup(exports.drop_last(), name)
    }
}

pub open spec fn opt_view(name: Option<&str>) -> Option<Seq<char>> {
    match name {
        Some(s) => Some(s@),
        None => None,
    }
}

/// Whether an import answers to (`module`, `name`): both module names equal,
/// and both field names present and equal. Two absent field names do not match.
pub open spec fn import_matches(d: ImportDescriptor, module: Seq<char>, name: Option<Seq<char>>) -> bool {
    d.module@ == module && match (d.field, name) {
        (Some(f), Some(n)) => f@ == n,
        _ => false,
    }
}

/// The slot of the first import that answers to (`module`, `name`).
pub open spec fn find_slot(imports: Seq<ImportDescriptor>, module: Seq<char>, name: Option<Seq<char>>) -> Option<usize>
    decreases imports.len(),
{
    if imports.len() == 0 {
        None
    } else if import_matches(imports[0], module, name) {
        Some(imports[0].offset)
    } else {
        find_slot(imports.drop_first(), module, name)
    }
}

/// What linking does to the code: the first matching slot receives the
/// address, little-endian; with no match nothing changes.
pub open spec fn link_spec(
    bytes: Seq<u8>,
    imports: Seq<ImportDescriptor>,
    module: Seq<char>,
    name: Option<Seq<char>>,
    addr: u64,
) -> Seq<u8> {
    match find_slot(imports, module, name) {
        Some(off) => patched(bytes, off as int, addr),
        None => bytes,
    }
}

/// Relocation slots lie inside the code, in increasing order, eight bytes
/// apart at least, so that no two overlap.
pub open spec fn slots_fit(imports: Seq<ImportDescriptor>, len: nat) -> bool {
    &&& forall|i: int| 0 <= i < imports.len() ==> #[trigger] imports[i].offset + 8 <= len
    &&& forall|i: int, j: int|
        0 <= i < j < imports.len() ==> #[trigger] imports[i].offset + 8 <= #[trigger] imports[j].offset
}

/// Every relocation slot holds `le_bytes(v)`.
pub open spec fn slots_hold(bytes: Seq<u8>, imports: Seq<ImportDescriptor>, v: u64) -> bool {
    forall|i: int|
        0 <= i < imports.len() ==> bytes.subrange(
            #[trigger] imports[i].offset as int,
            imports[i].offset + 8,
        ) == le_bytes(v)
}

impl Module {
    pub closed spec fn spec_n_imports(&self) -> u32 {
        self.n_imports
    }

    /// Entry offsets of the local functions, in declaration order.
    pub closed spec fn spec_entries(&self) -> Seq<usize> {
        self.entries@
    }

    pub closed spec fn spec_exports(&self) -> Seq<(String, u32)> {
        self.exports@
    }

    pub closed spec fn spec_imports(&self) -> Seq<ImportDescriptor> {
        self.imports@
    }

    /// The entry offset of function `idx`, where it has a body.
    pub open spec fn entry_of(&self, idx: u32) -> Option<usize> {
        if self.spec_n_imports() <= idx && idx - self.spec_n_imports() < self.spec_entries().len() {
            Some(self.spec_entries()[idx - self.spec_n_imports()])
        } else {
            None
        }
    }

    pub(crate) fn from_parts(
        n_imports: u32,
        entries: Vec<usize>,
        exports: Vec<(String, u32)>,
        imports: Vec<ImportDescriptor>,
    ) -> (m: Module)
        ensures
            m.spec_n_imports() == n_imports,
            m.spec_entries() == entries@,
            m.spec_exports() == exports@,
            m.spec_imports() == imports@,
    {
        Module { n_imports, entries, exports, imports }
    }

    fn has_body(&self, idx: u32) -> (r: bool)
        ensures
            r == self.entry_of(idx).is_some(),
    {
        self.n_imports <= idx && ((idx - self.n_imports) as usize) < self.entries.len()
    }

    /// The function index that export `name` names, if any.
    pub fn export_index(&self, name: &str) -> (r: Option<u32>)
        ensures
            r == export_lookup(self.spec_exports(), name@),
    {
        let key = name.to_owned();
        let mut i = self.exports.len();
        assert(self.exports@.take(i as int) =~= self.exports@);
        while i > 0
            invariant
                i <= self.exports.len(),
                key@ == name@,
                export_lookup(self.exports@, name@) == export_lookup(self.exports@.take(i as int), name@),
            decreases i,
        {
            assert(self.exports@.take(i as int).drop_last() =~= self.exports@.take(i - 1));
            assert(self.exports@.take(i as int).last() == self.exports@[i - 1]);
            if self.exports[i - 1].0 == key {
                return Some(self.exports[i - 1].1);
            }
            i -= 1;
        }
        None
    }

    /// The byte offset of the first instruction of the function that
    /// `identifier` names; `None` for an index past the known functions, an
    /// imported function, or an unknown export name.
    pub fn function_entry_point<I: FunctionIdentifier>(&self, identifier: I) -> (r: Option<usize>)
        ensures
            r == match identifier.spec_find(self) {
                Some(idx) => self.entry_of(idx),
                None => None,
            },
    {
        match identifier.find_function(self) {
            Some(idx) => {
                if self.has_body(idx) {
                    Some(self.entries[(idx - self.n_imports) as usize])
                } else {
                    None
                }
            },
            None => None,
        }
    }
}

/// A way to name a function of a module.
pub trait FunctionIdentifier {
    /// The function index named, where that function has a body.
    spec fn spec_find(&self, module: &Module) -> Option<u32>;

    fn find_function(&self, module: &Module) -> (r: Option<u32>)
        ensures
            r == self.spec_find(module),
            r matches Some(idx) ==> module.entry_of(idx).is_some(),
    ;
}

impl FunctionIdentifier for u32 {
    open spec fn spec_find(&self, module: &Module) -> Option<u32> {
        if module.entry_of(*self).is_some() {
            Some(*self)
        } else {
            None
        }
    }

    fn find_function(&self, module: &Module) -> (r: Option<u32>) {
        if module.has_body(*self) {
            Some(*self)
        } else {
            None
        }
    }
}

impl FunctionIdentifier for FunctionIndex {
    open spec fn spec_find(&self, module: &Module) -> Option<u32> {
        if module.entry_of(self.0).is_some() {
            Some(self.0)
        } else {
            None
        }
    }

    fn find_function(&self, module: &Module) -> (r: Option<u32>) {
        if module.has_body(self.0) {
            Some(self.0)
        } else {
            None
        }
    }
}

impl<'a> FunctionIdentifier for &'a str {
    open spec fn spec_find(&self, module: &Module) -> Option<u32> {
        match export_lookup(module.spec_exports(), (*self)@) {
            Some(idx) => if module.entry_of(idx).is_some() {
                Some(idx)
            } else {
                None
            },
            None => None,
        }
    }

    fn find_function(&self, module: &Module) -> (r: Option<u32>) {
        match module.export_index(*self) {
            Some(idx) => if module.has_body(idx) {
                Some(idx)
            } else {
                None
            },
            None => None,
        }
    }
}

/// A module together with its assembled machine code.
pub struct AssembledModule {
    module: Module,
    assembled: Vec<u8>,
}

/// Relies on byteorder's `LittleEndian::write_u64`: it copies the eight
/// little-endian bytes of `n` into the start of the slice it is given, here
/// `buf[start..end]`.
#[verifier::external_body]
fn write_le_u64(buf: &mut Vec<u8>, start: usize, end: usize, n: u64)
    requires
        end == start + 8,
        end <= old(buf)@.len(),
    ensures
        final(buf)@ == patched(old(buf)@, start as int, n),
    no_unwind
{
    LittleEndian::write_u64(&mut buf[start..end], n)
}

proof fn lemma_patch_sets_slot(bytes: Seq<u8>, off: int, n: u64)
    requires
        0 <= off,
        off + 8 <= bytes.len(),
    ensures
        patched(bytes, off, n).len() == bytes.len(),
        patched(bytes, off, n).subrange(off, off + 8) == le_bytes(n),
{
    assert(patched(bytes, off, n).subrange(off, off + 8) =~= le_bytes(n));
}

proof fn lemma_patch_keeps_slot(bytes: Seq<u8>, off: int, n: u64, other: int)
    requires
        0 <= off,
        off + 8 <= bytes.len(),
        0 <= other,
        other + 8 <= bytes.len(),
        other + 8 <= off || off + 8 <= other,
    ensures
        patched(bytes, off, n).subrange(other, other + 8) == bytes.subrange(other, other + 8),
{
    assert(patched(bytes, off, n).subrange(other, other + 8) =~= bytes.subrange(other, other + 8));
}

impl AssembledModule {
    #[verifier::type_invariant]
    spec fn inv(&self) -> bool {
        slots_fit(self.module.imports@, self.assembled@.len())
    }

    pub closed spec fn spec_module(&self) -> &Module {
        &self.module
    }

    pub closed spec fn spec_bytes(&self) -> Seq<u8> {
        self.assembled@
    }

    /// Pairs `module` with its assembled code, as it is.
    pub(crate) fn new(module: Module, assembled: Vec<u8>) -> (r: AssembledModule)
        requires
            slots_fit(module.spec_imports(), assembled@.len()),
        ensures
            r.spec_module() == module,
            r.spec_bytes() == assembled@,
    {
        AssembledModule { module, assembled }
    }

    /// The tables of the module.
    pub fn module(&self) -> (r: &Module)
        ensures
            r == self.spec_module(),
    {
        &self.module
    }

    /// The finished machine code.
    pub fn binary(&self) -> (r: &[u8])
        ensures
            r@ == self.spec_bytes(),
    {
        self.assembled.as_slice()
    }

    /// See `Module::function_entry_point`.
    pub fn function_entry_point<I: FunctionIdentifier>(&self, identifier: I) -> (r: Option<usize>)
        ensures
            r == match identifier.spec_find(self.spec_module()) {
                Some(idx) => self.spec_module().entry_of(idx),
                None => None,
            },
    {
        self.module.function_entry_point(identifier)
    }

    /// Writes `addr`, little-endian, into the relocation slot of the first
    /// import whose module name is `module` and whose field name is `name`
    /// (both present and equal); does nothing when no import matches.
    pub fn link_import(&mut self, module: &str, name: Option<&str>, addr: u64)
        ensures
            final(self).spec_module() == old(self).spec_module(),
            final(self).spec_bytes() == link_spec(
                old(self).spec_bytes(),
                old(self).spec_module().spec_imports(),
                module@,
                opt_view(name),
                addr,
            ),
    {
        proof {
            use_type_invariant(&*self);
        }
        match self.module.find_import(module, name) {
            Some(off) => {
                proof {
                    lemma_found_slot_fits(self.module.imports@, module@, opt_view(name), self.assembled@.len());
                }
                let len = self.assembled.len();
                assert(off + 8 <= len);
                write_le_u64(&mut self.assembled, off, off + 8, addr);
            },
            None => {},
        }
    }
}

proof fn lemma_found_slot_fits(imports: Seq<ImportDescriptor>, module: Seq<char>, name: Option<Seq<char>>, len: nat)
    requires
        slots_fit(imports, len),
        find_slot(imports, module, name) is Some,
    ensures
        find_slot(imports, module, name)->Some_0 + 8 <= len,
    decreases imports.len(),
{
    assert(imports[0].offset + 8 <= len);
    if !import_matches(imports[0], module, name) {
        let rest = imports.drop_first();
        assert forall|i: int| 0 <= i < rest.len() implies #[trigger] rest[i].offset + 8 <= len by {
            assert(rest[i] == imports[i + 1]);
        }
        assert forall|i: int, j: int| 0 <= i < j < rest.len() implies #[trigger] rest[i].offset + 8 <= #[trigger] rest[j].offset by {
            assert(rest[i] == imports[i + 1]);
            assert(rest[j] == imports[j + 1]);
        }
        lemma_found_slot_fits(rest, module, name, len);
    }
}

impl Module {
    /// The slot offset of the first import that answers to (`module`, `name`).
    pub fn find_import(&self, module: &str, name: Option<&str>) -> (r: Option<usize>)
        ensures
            r == find_slot(self.spec_imports(), module@, opt_view(name)),
    {
        let key = module.to_owned();
        let wanted: Option<String> = match name {
            Some(n) => Some(n.to_owned()),
            None => None,
        };
        let ghost imports = self.imports@;
        assert(imports.skip(0) =~= imports);
        let mut i: usize = 0;
        while i < self.imports.len()
            invariant
                i <= self.imports.len(),
                imports == self.imports@,
                key@ == module@,
                opt_view(name) == match wanted {
                    Some(w) => Some(w@),
                    None => None,
                },
                find_slot(imports, module@, opt_view(name)) == find_slot(imports.skip(i as int), module@, opt_view(name)),
            decreases self.imports.len() - i,
        {
            let d = &self.imports[i];
            assert(imports.skip(i as int)[0] == imports[i as int]);
            assert(imports.skip(i as int).drop_first() =~= imports.skip(i + 1));
            let names_equal = match (&d.field, &wanted) {
                (Some(f), Some(w)) => *f == *w,
                _ => false,
            };
            if d.module == key && names_equal {
                return Some(d.offset);
            }
            i += 1;
        }
        assert(imports.skip(i as int).len() == 0);
        None
    }
}

/// Linking a (module, field) pair that no import answers to changes no byte
/// of the code.
pub proof fn law_unmatched_link_changes_nothing(
    bytes: Seq<u8>,
    imports: Seq<ImportDescriptor>,
    module: Seq<char>,
    name: Option<Seq<char>>,
    addr: u64,
)
    requires
        forall|i: int| 0 <= i < imports.len() ==> !import_matches(#[trigger] imports[i], module, name),
    ensures
        link_spec(bytes, imports, module, name, addr) == bytes,
    decreases imports.len(),
{
    if imports.len() > 0 {
        assert(!import_matches(imports[0], module, name));
        let rest = imports.drop_first();
        assert forall|i: int| 0 <= i < rest.len() implies !import_matches(#[trigger] rest[i], module, name) by {
            assert(rest[i] == imports[i + 1]);
        }
        law_unmatched_link_changes_nothing(bytes, rest, module, name, addr);
    }
}

/// A slot round trip: in code whose slots all hold the sentinel, linking
/// the import at position `k`, the first that answers to (`module`, `name`),
/// puts the little-endian address into its slot, leaves every other slot
/// holding the sentinel, and changes no byte outside that slot.
pub proof fn law_link_fills_one_slot(
    bytes: Seq<u8>,
    imports: Seq<ImportDescriptor>,
    module: Seq<char>,
    name: Option<Seq<char>>,
    addr: u64,
    k: int,
)
    requires
        slots_fit(imports, bytes.len()),
        slots_hold(bytes, imports, SENTINEL),
        0 <= k < imports.len(),
        import_matches(imports[k], module, name),
        forall|i: int| 0 <= i < k ==> !import_matches(#[trigger] imports[i], module, name),
    ensures
        ({
            let after = link_spec(bytes, imports, module, name, addr);
            let off = imports[k].offset as int;
            &&& bytes.subrange(off, off + 8) == le_bytes(SENTINEL)
            &&& after.len() == bytes.len()
            &&& after.subrange(off, off + 8) == le_bytes(addr)
            &&& forall|p: int| 0 <= p < bytes.len() && !(off <= p < off + 8) ==> #[trigger] after[p] == bytes[p]
            &&& forall|j: int| 0 <= j < imports.len() && j != k ==> after.subrange(
                #[trigger] imports[j].offset as int,
                imports[j].offset + 8,
            ) == le_bytes(SENTINEL)
        }),
{
    lemma_find_first(imports, module, name, k);
    let off = imports[k].offset as int;
    assert forall|j: int| 0 <= j < imports.len() && j != k implies link_spec(bytes, imports, module, name, addr).subrange(
        #[trigger] imports[j].offset as int,
        imports[j].offset + 8,
    ) == le_bytes(SENTINEL) by {
        if j < k {
            assert(imports[j].offset + 8 <= imports[k].offset);
        } else {
            assert(imports[k].offset + 8 <= imports[j].offset);
        }
        lemma_patch_keeps_slot(bytes, off, addr, imports[j].offset as int);
    }
    lemma_patch_sets_slot(bytes, off, addr);
    let after = patched(bytes, off, addr);
    assert forall|p: int| 0 <= p < bytes.len() && !(off <= p < off + 8) implies #[trigger] after[p] == bytes[p] by {
        if p < off {
            assert(after[p] == bytes.take(off)[p]);
        } else {
            assert(after[p] == bytes.skip(off + 8)[p - off - 8]);
        }
    }
}

proof fn lemma_find_first(imports: Seq<ImportDescriptor>, module: Seq<char>, name: Option<Seq<char>>, k: int)
    requires
        0 <= k < imports.len(),
        import_matches(imports[k], module, name),
        forall|i: int| 0 <= i < k ==> !import_matches(#[trigger] imports[i], module, name),
    ensures
        find_slot(imports, module, name) == Some(imports[k].offset),
    decreases k,
{
    if k > 0 {
        let rest = imports.drop_first();
        assert(!import_matches(imports[0], module, name));
        assert forall|i: int| 0 <= i < k - 1 implies !import_matches(#[trigger] rest[i], module, name) by {
            assert(rest[i] == imports[i + 1]);
        }
        assert(rest[k - 1] == imports[k]);
        lemma_find_first(rest, module, name, k - 1);
    }
}

} // verus!
