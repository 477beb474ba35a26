pub mod tacky;
pub mod gen_tacky;
