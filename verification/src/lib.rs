//! Region lookup service core: the HTTP server's request/response logic,
//! its route table, and the binary record format of the region database.

pub mod api_result;
pub mod bytes;
pub mod context;
pub mod cors;
pub mod error;
pub mod net;
pub mod polyline;
pub mod region;
pub mod reply;
pub mod server;
pub mod service;
pub mod strings;
pub mod text;

pub use api_result::ApiResult;
pub use context::HttpContext;
pub use cors::CorsMiddleware;
pub use error::{HttpErr, HttpError, HttpResult};
pub use net::Ipv4;
pub use region::{Coord, Region, RegionInfo};
pub use reply::{HttpResponse, Reply, Resp, APPLICATION_JSON, CONTENT_TYPE};
pub use server::{AccessLog, HttpServer};
pub use service::{GetReq, RegionJson};
