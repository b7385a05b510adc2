//! The HAR document: a log of recorded request/response exchanges.
use vstd::prelude::*;

verus! {

/// Name and version of the tool that made the capture.
pub struct Creator {
    pub name: String,
    pub version: String,
}

/// One header or query-string parameter. Names need not be unique.
pub struct NameValue {
    pub name: String,
    pub value: String,
}

/// The body a request carried.
pub struct PostData {
    pub mime_type: String,
    pub text: String,
}

/// A recorded request.
pub struct Request {
    pub method: String,
    pub url: String,
    pub http_version: String,
    pub headers: Vec<NameValue>,
    pub query_string: Vec<NameValue>,
    pub cookies: serde_json::Value,
    pub headers_size: usize,
    pub body_size: usize,
    /// `None` when the request carried no body at all.
    pub post_data: Option<PostData>,
}

/// The body of a response, already decoded to text by the capture tool.
pub struct ResponseContent {
    pub size: usize,
    pub mime_type: String,
    pub compression: isize,
    pub text: String,
}

/// A recorded response.
pub struct Response {
    pub status: u16,
    pub status_text: String,
    pub http_version: String,
    pub headers: Vec<NameValue>,
    pub cookies: serde_json::Value,
    pub content: ResponseContent,
    pub redirect_url: String,
    pub headers_size: usize,
    pub body_size: usize,
    pub transfer_size: serde_json::Value,
}

/// One recorded exchange.
pub struct Entry {
    pub started_date_time: String,
    /// Elapsed milliseconds, kept as the JSON number it was read from.
    pub time: serde_json::Value,
    pub request: Request,
    pub response: Response,
    pub cache: serde_json::Value,
    pub timings: serde_json::Value,
    pub server_ip_address: serde_json::Value,
    pub connection: serde_json::Value,
}

/// The log of a capture; `entries` are in capture order, which is also the
/// order in which they are numbered and shown.
pub struct Log {
    pub version: String,
    pub creator: Creator,
    pub pages: Vec<String>,
    pub entries: Vec<Entry>,
}

/// A whole HAR document.
pub struct Doc {
    pub log: Log,
}

/// Number of entries in the document.
pub fn count_entries(doc: &Doc) -> (r: usize)
    ensures
        r == doc.log.entries@.len(),
{
    doc.log.entries.len()
}

} // verus!
