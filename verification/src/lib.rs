pub mod chars;
pub mod css;
pub mod dom;
pub mod html;
pub mod layout;
pub mod pixel;
pub mod strmap;
pub mod style;
pub mod serialize;
