//! Static analyses of a place/transition net that models trains moving over
//! a fixed graph of cities: a colouring (duality) check and a reversibility
//! check, together with the constructors of the fixed scenario.

pub mod our_model;
pub mod our_model_laws;
pub mod petri_net_laws;
pub mod petri_net_model;
