//! The site-assignment algorithm families and their shared two-operation
//! interface.
pub mod _algo_traits;
pub mod hybrid_0_steady_1_tilted_2_algo;
pub mod quantities;
pub mod steady_algo;
pub mod tilted_algo;

pub use _algo_traits::AssignStorageSiteTrait;
pub use _algo_traits::HasIngestCapacityTrait;

pub use hybrid_0_steady_1_tilted_2_algo::Algo as Hybrid0Steady1Tilted2Algo;
pub use steady_algo::SteadyAlgo;
pub use tilted_algo::Algo as TiltedAlgo;
