//! The visualization model: charts, their plot descriptions, the series
//! data files and the selection of charts into views.

pub mod chart;
pub mod data;
pub mod layout;
pub mod template;
pub mod writer;
