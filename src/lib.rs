//! A feedforward neural network engine's verified core: network topology and construction,
//! category binding, the training schedule, and the model text format; plus a small table type.

pub mod activation;
pub mod category;
pub mod dataframe;
pub mod model;
pub mod text;
pub mod topology;
pub mod training;
