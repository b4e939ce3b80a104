//! The JIT engine's process-wide bookkeeping: the published-artifact
//! table and the compilation pipeline up to a ready-to-lower IR module.
//!
//! The engine never generates machine code itself — that step, and the
//! type-erased invocation of an entry point, need executable memory and
//! an unsafe boundary that live outside the library. The engine's
//! contract is the part worth stating: compiling touches no published
//! state, publication is an atomic append, old artifacts are never
//! mutated or removed (replace-by-append, so code still executing stays
//! valid), and lookup always finds the newest artifact of a name.
use vstd::prelude::*;

use crate::frontend::CompileError;
use crate::frontend::parse_program;
use crate::ir::FnSig;
use crate::ir::IrModule;
use crate::ir::build_module;

verus! {

/// The phases of one compilation request. A request advances in order
/// and may fail from any phase; failure never touches published state.
#[derive(Debug, Clone, Copy, PartialEq, Eq, Structural)]
pub enum RequestState {
    Received,
    Parsed,
    Built,
    Compiled,
    Linked,
    Ready,
    Failed,
}

impl RequestState {
    /// The phase that follows on success.
    pub open spec fn next_spec(self) -> RequestState {
        match self {
            RequestState::Received => RequestState::Parsed,
            RequestState::Parsed => RequestState::Built,
            RequestState::Built => RequestState::Compiled,
            RequestState::Compiled => RequestState::Linked,
            RequestState::Linked => RequestState::Ready,
            RequestState::Ready => RequestState::Ready,
            RequestState::Failed => RequestState::Failed,
        }
    }

    /// Advance on success, or drop to `Failed`: the only transitions a
    /// request may take.
    pub fn step(self, ok: bool) -> (r: RequestState)
        ensures
            ok ==> r == self.next_spec(),
            !ok ==> r == RequestState::Failed,
    {
        if ok {
            match self {
                RequestState::Received => RequestState::Parsed,
                RequestState::Parsed => RequestState::Built,
                RequestState::Built => RequestState::Compiled,
                RequestState::Compiled => RequestState::Linked,
                RequestState::Linked => RequestState::Ready,
                RequestState::Ready => RequestState::Ready,
                RequestState::Failed => RequestState::Failed,
            }
        } else {
            RequestState::Failed
        }
    }
}

/// One published unit of compiled code: a stable entry-point address
/// and the signature it was compiled with. Addresses are opaque plain
/// values here; the backend that produced them owns the memory.
#[derive(Debug, Clone)]
pub struct Artifact {
    pub name: Vec<u8>,
    pub addr: usize,
    pub n_params: usize,
    pub n_rets: usize,
}

/// The newest artifact of `name`: scan from the most recently published
/// end.
pub open spec fn find_last(s: Seq<Artifact>, name: Seq<u8>) -> Option<int>
    decreases s.len(),
{
    if s.len() == 0 {
        None
    } else if s.last().name@ == name {
        Some(s.len() - 1)
    } else {
        find_last(s.drop_last(), name)
    }
}

/// The process-wide JIT context: a fixed host symbol table, supplied at
/// start and never mutated, and the growing table of published
/// artifacts.
pub struct JitEngine {
    pub host: Vec<FnSig>,
    pub published: Vec<Artifact>,
}

impl JitEngine {
    /// A fresh context with the given host symbol table and nothing
    /// published.
    pub fn new(host: Vec<FnSig>) -> (e: JitEngine)
        ensures
            e.host@ == host@,
            e.published@.len() == 0,
    {
        JitEngine { host, published: Vec::new() }
    }

    /// Run a compilation request up to a ready IR module: parse the
    /// source, then build and resolve the IR against this module's own
    /// definitions and the host table. Pure with respect to the engine:
    /// it takes the context immutably, so a failed request — a
    /// `SyntaxError` included — cannot disturb any published artifact.
    /// Every failure is one of the front-end's or the builder's four
    /// faults; whitespace-only source always compiles, to the empty
    /// module; and every function of a ready module has an entry block
    /// and variable slots covering its parameters.
    pub fn compile_source(&self, src: &Vec<u8>) -> (r: Result<IrModule, CompileError>)
        ensures
            r matches Err(e) ==> (e is SyntaxError || e is UnknownIdentifier || e is TypeMismatch
                || e is UndefinedFunction),
            crate::frontend::all_ws(src@) ==> r is Ok && r->Ok_0.funcs@.len() == 0,
            r matches Ok(m) ==> forall|i: int|
                0 <= i < m.funcs@.len() ==> (#[trigger] m.funcs@[i]).blocks@.len() >= 1
                    && m.funcs@[i].n_vars >= m.funcs@[i].n_params,
    {
        let prog = match parse_program(src) {
            Ok(p) => p,
            Err(e) => {
                return Err(e);
            },
        };
        build_module(&prog, &self.host)
    }

    /// Atomically publish freshly lowered artifacts: every existing
    /// entry keeps its position, address and signature — code still
    /// running anywhere stays valid — and the new entries are appended,
    /// so they shadow older artifacts of the same names in `lookup`.
    pub fn publish(&mut self, arts: Vec<Artifact>)
        ensures
            final(self).published@ == old(self).published@ + arts@,
            final(self).host@ == old(self).host@,
    {
        let mut arts = arts;
        self.published.append(&mut arts);
    }

    /// The newest published artifact of `name`: its entry address and
    /// its parameter and return counts.
    pub fn lookup(&self, name: &Vec<u8>) -> (r: Option<(usize, usize, usize)>)
        ensures
            match find_last(self.published@, name@) {
                Some(j) => r == Some(
                    (
                        self.published@[j].addr,
                        self.published@[j].n_params,
                        self.published@[j].n_rets,
                    ),
                ),
                None => r is None,
            },
    {
        let mut i = self.published.len();
        proof {
            assert(self.published@.subrange(0, self.published@.len() as int) =~= self.published@);
        }
        while i > 0
            invariant
                i <= self.published@.len(),
                find_last(self.published@, name@) == find_last(
                    self.published@.subrange(0, i as int),
                    name@,
                ),
            decreases i,
        {
            i -= 1;
            if crate::ir::bytes_eq(&self.published[i].name, name) {
                proof {
                    let sub = self.published@.subrange(0, i as int + 1);
                    assert(sub.last() == self.published@[i as int]);
                    assert(find_last(sub, name@) == Some(i as int));
                }
                return Some(
                    (
                        self.published[i].addr,
                        self.published[i].n_params,
                        self.published[i].n_rets,
                    ),
                );
            }
            proof {
                let sub = self.published@.subrange(0, i as int + 1);
                assert(sub.last() == self.published@[i as int]);
                assert(sub.drop_last() =~= self.published@.subrange(0, i as int));
            }
        }
        proof {
            assert(self.published@.subrange(0, 0).len() == 0);
        }
        None
    }
}

/// LAW: recompiling under a name replaces prior behavior without
/// touching it. After publishing artifact `a` onto table `s`, looking
/// up `a`'s name finds exactly the new artifact, every other name
/// resolves as before, and every prior entry — the old code a running
/// invocation may still be executing — is still present, unchanged, at
/// its old position.
pub proof fn lemma_publish_replaces(s: Seq<Artifact>, a: Artifact)
    ensures
        find_last(s + seq![a], a.name@) == Some(s.len() as int),
        forall|n: Seq<u8>|
            n != a.name@ ==> #[trigger] find_last(s + seq![a], n) == find_last(s, n),
        forall|j: int| 0 <= j < s.len() ==> (s + seq![a])[j] == s[j],
{
    let ext = s + seq![a];
    assert(ext.last() == a);
    assert(ext.drop_last() =~= s);
}

} // verus!
