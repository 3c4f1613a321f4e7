use vstd::prelude::*;

pub mod channel;
pub mod text;
pub mod theme;
pub mod width;
pub mod shared;
pub mod chrome;
pub mod proxy_wave;
pub mod sessions;
pub mod layout;
pub mod json_lines;
pub mod workspace;
pub mod webdav;
pub mod queues;
pub mod json;
pub mod managed_auth;
pub mod skills;
pub mod provider_form;
pub mod update;

verus! {

} // verus!
