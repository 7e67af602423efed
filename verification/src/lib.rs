//! Decision logic of a desktop media downloader: URL classification, request
//! payloads, yt-dlp invocation plans, output-file naming, system-proxy
//! bookkeeping for resource capture, and the parsing of the tools' outputs.
use vstd::prelude::*;

pub mod text;
pub mod order;
pub mod settings;
pub mod links;
pub mod xinpianchang;
pub mod sniffer;
pub mod cobalt;
pub mod ytdlp;
pub mod invocation;
pub mod files;
pub mod sizes;
pub mod progress;
pub mod tasks;
pub mod capture;
pub mod proxy_session;
pub mod processes;

verus! {

} // verus!
