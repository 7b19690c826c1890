//! Rules of the web front end: limits on CGI environment values and POST
//! bodies, request methods, and the page generator's plain types.

use vstd::prelude::*;
use crate::db::Db;
use crate::text::{parse_u32, trim, trimmed, decimal_u32};

verus! {

/// Longest CGI environment value accepted, in bytes.
pub const MAX_CGIENV_LEN: usize = 4096;

/// Longest trimmed text read as a `u32`, in bytes.
pub const MAX_CGIENV_U32_LEN: usize = 10;

/// Largest POST body accepted, in bytes.
pub const MAX_POST_BODY_LEN: u32 = 1048576;

/// The MIME type of generated pages.
pub const MIME: &'static str = "text/html";

/// Why a CGI environment value is refused.
#[derive(Clone, Copy, PartialEq, Eq, Debug, Structural)]
pub enum CgiEnvError {
    /// Longer than `MAX_CGIENV_LEN` bytes.
    TooLong,
    /// Trimmed, longer than `MAX_CGIENV_U32_LEN` bytes.
    TooLongForU32,
    /// Not a decimal `u32`.
    NotANumber,
}

/// A CGI environment value as text, when it is not too long.
pub fn get_cgienv_str(value: &str) -> (r: Result<String, CgiEnvError>)
    ensures
        value.len() <= MAX_CGIENV_LEN ==> r is Ok && r->Ok_0@ == value@,
        value.len() > MAX_CGIENV_LEN ==> r == Err::<String, CgiEnvError>(CgiEnvError::TooLong),
{
    if value.len() <= MAX_CGIENV_LEN {
        Ok(value.to_owned())
    } else {
        Err(CgiEnvError::TooLong)
    }
}

/// A CGI environment value read as a `u32` after trimming.
pub fn get_cgienv_u32(value: &str) -> (r: Result<u32, CgiEnvError>)
    ensures
        value.len() > MAX_CGIENV_LEN ==> r == Err::<u32, CgiEnvError>(CgiEnvError::TooLong),
        value.len() <= MAX_CGIENV_LEN ==> r == match decimal_u32(trimmed(value@)) {
            Some(v) => if vstd::utf8::encode_utf8(trimmed(value@)).len() as usize
                <= MAX_CGIENV_U32_LEN {
                Ok::<u32, CgiEnvError>(v)
            } else {
                Err(CgiEnvError::TooLongForU32)
            },
            None => if vstd::utf8::encode_utf8(trimmed(value@)).len() as usize
                <= MAX_CGIENV_U32_LEN {
                Err(CgiEnvError::NotANumber)
            } else {
                Err(CgiEnvError::TooLongForU32)
            },
        },
{
    if value.len() > MAX_CGIENV_LEN {
        return Err(CgiEnvError::TooLong);
    }
    let t = trim(value);
    if t.len() > MAX_CGIENV_U32_LEN {
        return Err(CgiEnvError::TooLongForU32);
    }
    match parse_u32(t) {
        Some(v) => Ok(v),
        None => Err(CgiEnvError::NotANumber),
    }
}

/// Why a POST request is refused before its body is read.
#[derive(Clone, Copy, PartialEq, Eq, Debug, Structural)]
pub enum PostError {
    /// The announced body length is zero.
    EmptyBody,
    /// The announced body length is above `MAX_POST_BODY_LEN`.
    BodyTooLarge,
    /// No content type is given.
    NoContentType,
}

/// Checks the announced length and type of a POST body, in this order.
pub fn check_post(body_len: u32, body_type: &str) -> (r: Result<(), PostError>)
    ensures
        body_len == 0 ==> r == Err::<(), PostError>(PostError::EmptyBody),
        body_len > MAX_POST_BODY_LEN ==> r == Err::<(), PostError>(PostError::BodyTooLarge),
        0 < body_len <= MAX_POST_BODY_LEN && body_type@.len() == 0 ==> r == Err::<(), PostError>(
            PostError::NoContentType,
        ),
        0 < body_len <= MAX_POST_BODY_LEN && body_type@.len() > 0 ==> r is Ok,
{
    if body_len == 0 {
        Err(PostError::EmptyBody)
    } else if body_len > MAX_POST_BODY_LEN {
        Err(PostError::BodyTooLarge)
    } else if body_type.is_empty() {
        Err(PostError::NoContentType)
    } else {
        Ok(())
    }
}

/// The request methods the front end answers.
#[derive(Clone, Copy, PartialEq, Eq, Debug, Structural)]
pub enum RequestMethod {
    Head,
    Get,
    Post,
    Unsupported,
}

/// Reads a request method, after trimming.
pub fn request_method(m: &str) -> (r: RequestMethod)
    ensures
        r == if trimmed(m@) == "HEAD"@ {
            RequestMethod::Head
        } else if trimmed(m@) == "GET"@ {
            RequestMethod::Get
        } else if trimmed(m@) == "POST"@ {
            RequestMethod::Post
        } else {
            RequestMethod::Unsupported
        },
{
    let t = trim(m).to_owned();
    if t.eq(&"HEAD".to_owned()) {
        RequestMethod::Head
    } else if t.eq(&"GET".to_owned()) {
        RequestMethod::Get
    } else if t.eq(&"POST".to_owned()) {
        RequestMethod::Post
    } else {
        RequestMethod::Unsupported
    }
}

/// Whether a page is generated with its body or for its headers alone.
#[derive(PartialEq, Eq, Copy, Clone, Debug, Structural)]
pub enum GetBody {
    No,
    Yes,
}

/// A generated page.
#[derive(Clone, Debug)]
pub struct PageGenResult {
    pub body: String,
    pub mime: String,
}

impl PageGenResult {
    /// A page of MIME type `text/html`.
    pub fn html(body: String) -> (r: PageGenResult)
        ensures
            r.body == body,
            r.mime@ == MIME@,
    {
        PageGenResult { body, mime: MIME.to_owned() }
    }
}

/// Generates pages from a database.
#[derive(Clone, Debug)]
pub struct PageGen {
    db: Db,
}

impl PageGen {
    /// A page generator on `db`.
    pub fn new(db: Db) -> (r: PageGen)
        ensures
            r.spec_db() == db,
    {
        PageGen { db }
    }

    /// The database pages are generated from.
    pub closed spec fn spec_db(&self) -> Db {
        self.db
    }

    /// The database pages are generated from.
    pub fn db(&self) -> (r: &Db)
        ensures
            *r == self.spec_db(),
    {
        &self.db
    }
}

} // verus!
