pub mod atom;
pub mod bond;
pub mod chirality;
pub mod element;
pub mod selectors;
