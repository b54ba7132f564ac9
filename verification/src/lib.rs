//! Verified core of the Flowly HTTP/HTTPS debugging proxy workbench.
use vstd::prelude::*;

pub mod text;
pub mod system_proxy;
pub mod proxy_ctrl;
pub mod traffic;
pub mod capture;
pub mod replay;
pub mod history;
pub mod config;
pub mod intercept;
pub mod hook;
pub mod rules;
pub mod cert;
pub mod trust;
pub mod window;
pub mod sender;

verus! {

} // verus!
