pub mod chain;
pub mod matcher;
pub mod params;
pub mod path;
pub mod router;
pub mod url_for;

pub use chain::{HandlerOutcome, dispatch_step};
pub use params::{ParamMap, RouteMap};
pub use router::{Method, Resolution, Router, RouterError, Match};
pub use url_for::{RequestContext, get_parameter, url_for, url_for_impl};
