pub mod crossover;
pub mod domains;
pub mod evaluation;
pub mod ga;
pub mod numerals;
pub mod ops;
pub mod point_mutation;
pub mod rgep;
pub mod rotation;
pub mod selection;
pub mod sampling;
pub mod symbols;
pub mod types;
