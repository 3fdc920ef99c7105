//! Anti-CSRF enforcement for web request pipelines: path templates, exception
//! routing, the per-request token decision and a streaming form injector.

pub mod decision;
pub mod fairing;
pub mod injector;
pub mod method;
pub mod percent;
pub mod router;
pub mod template;
