// Concrete instruction families: scalar word instructions (arithmetic,
// boolean and stack manipulation), expression-tree building, and the
// generic tree-capture wrapper.  Each family implements the `Symbol`
// interface the engine runs against.

pub mod arith;
pub mod boolean;
pub mod generic;
pub mod stack;
pub mod tree;
