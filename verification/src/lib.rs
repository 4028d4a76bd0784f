pub mod ir;
pub mod text;
pub mod parser;
pub mod printer;
pub mod optimizer;
pub mod semantics;
pub mod equivalence;
pub mod lowering;
pub mod collapse_laws;
pub mod invariants;
pub mod interp;
pub mod refinement;
pub mod optimizer_laws;
pub mod partial;
pub mod soundness;
pub mod residual;
pub mod profiler;
pub mod compiler;
pub mod llvm;
