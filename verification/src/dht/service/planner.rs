pub mod invariants;
