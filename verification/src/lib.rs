pub mod assemble;
pub mod base_url;
pub mod classify;
pub mod dedupe;
pub mod route;
pub mod static_routes;
pub mod text;
pub mod walk;
