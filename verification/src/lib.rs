//! The logic of a CEF runtime for Tauri.
//!
//! A webview asks for the resources of an app's custom schemes, and the app serves
//! them: [`request`] makes a request ready for its handler, which [`registry`] finds;
//! a handler's response is kept whole ([`buffered`]) or comes bit by bit
//! ([`streaming`]), and [`reading`] answers CEF when it pulls at either. The other
//! modules decide what a page may do.

pub mod buffered;
pub mod channel;
pub mod csp;
pub mod csp_laws;
pub mod headers;
pub mod html;
pub mod html_laws;
pub mod navigation;
pub mod origin;
pub mod permission;
pub mod policy;
pub mod protocol;
pub mod reading;
pub mod registry;
pub mod reload;
pub mod request;
pub mod response;
pub mod streaming;
pub mod text;
