//! Routing: maps a request's method, path, facts and file-store outcome to
//! the serialized response, and names the file-store operation a request
//! calls for.
//!
//! The file store itself is a collaborator: the caller performs the
//! operation named by [`route_file_op`] and hands its outcome to
//! [`route_request`].

use vstd::prelude::*;
use vstd::string::StrSliceExecFns;

use crate::headers::RequestInfo;
use crate::response::{
    spec_add_header, spec_new, spec_response_bytes, spec_with_gzip, spec_with_text_body,
    HttpResponse, RespModel,
};
use crate::text::{spec_starts_with, str_eq, str_starts_with};

verus! {

/// A file-store operation a request calls for: read or write the file at
/// the given full path.
pub enum FileOp {
    Read(String),
    Write(String),
}

/// Model of a file-store operation.
pub ghost enum FileOpModel {
    Read(Seq<char>),
    Write(Seq<char>),
}

impl View for FileOp {
    type V = FileOpModel;

    open spec fn view(&self) -> FileOpModel {
        match self {
            FileOp::Read(p) => FileOpModel::Read(p@),
            FileOp::Write(p) => FileOpModel::Write(p@),
        }
    }
}

/// The outcome of the file-store operation a request called for:
/// `NotNeeded` when the route involves no file, otherwise what the
/// collaborator reported.
pub enum FileOutcome {
    NotNeeded,
    ReadOk(String),
    ReadFailed,
    WriteOk,
    WriteFailed,
}

/// Whether the route of `(method, path)` reads a file.
pub open spec fn spec_needs_read(method: Seq<char>, path: Seq<char>) -> bool {
    method == "GET"@ && spec_starts_with(path, "/files/"@)
}

/// Whether the route of `(method, path)` writes a file.
pub open spec fn spec_needs_write(method: Seq<char>, path: Seq<char>) -> bool {
    method == "POST"@ && spec_starts_with(path, "/files/"@)
}

/// The full file path of a `/files/{rest}` request: the configured root,
/// a slash, and the rest of the path.
pub open spec fn spec_file_path(dir: Seq<char>, path: Seq<char>) -> Seq<char> {
    dir + "/"@ + path.skip(7)
}

/// The file-store operation of a request, when its route involves one.
pub open spec fn spec_file_op(method: Seq<char>, path: Seq<char>, dir: Seq<char>) -> Option<
    FileOpModel,
> {
    if spec_needs_read(method, path) {
        Some(FileOpModel::Read(spec_file_path(dir, path)))
    } else if spec_needs_write(method, path) {
        Some(FileOpModel::Write(spec_file_path(dir, path)))
    } else {
        None
    }
}

/// Gzip compression of the body, applied only when the request accepts it.
pub open spec fn spec_gzip_if(accepts: bool, m: RespModel) -> RespModel {
    if accepts {
        spec_with_gzip(m)
    } else {
        m
    }
}

/// The routing table, evaluated in order, first match winning; the
/// close-connection header is appended afterwards by [`spec_route`].
pub open spec fn spec_route_base(
    method: Seq<char>,
    path: Seq<char>,
    info: RequestInfo,
    file: FileOutcome,
) -> RespModel {
    if method == "GET"@ && path == "/"@ {
        spec_new(200)
    } else if method == "GET"@ && path == "/user-agent"@ {
        match info.user_agent {
            Some(agent) => spec_gzip_if(
                info.accepts_gzip,
                spec_with_text_body(spec_new(200), "text/plain"@, agent@),
            ),
            None => spec_new(404),
        }
    } else if method == "GET"@ && spec_starts_with(path, "/echo/"@) {
        spec_gzip_if(
            info.accepts_gzip,
            spec_with_text_body(spec_new(200), "text/plain"@, path.skip(6)),
        )
    } else if spec_needs_read(method, path) {
        match file {
            FileOutcome::ReadOk(content) => spec_gzip_if(
                info.accepts_gzip,
                spec_with_text_body(spec_new(200), "application/octet-stream"@, content@),
            ),
            _ => spec_new(404),
        }
    } else if spec_needs_write(method, path) {
        match file {
            FileOutcome::WriteOk => spec_new(201),
            _ => spec_with_text_body(spec_new(500), "text/plain"@, "Failed to write file"@),
        }
    } else {
        spec_new(404)
    }
}

/// The routed response: the table's entry, with `Connection: close`
/// appended when the request asked to close.
pub open spec fn spec_route(
    method: Seq<char>,
    path: Seq<char>,
    info: RequestInfo,
    file: FileOutcome,
) -> RespModel {
    if info.close_connection {
        spec_add_header(spec_route_base(method, path, info, file), "Connection"@, "close"@)
    } else {
        spec_route_base(method, path, info, file)
    }
}

fn file_path_for(dir: &str, path: &str) -> (r: String)
    requires
        path@.len() >= 7,
    ensures
        r@ == spec_file_path(dir@, path@),
{
    let mut s = dir.to_owned();
    s.append("/");
    s.append(path.substring_char(7, path.unicode_len()));
    proof {
        assert(s@ =~= spec_file_path(dir@, path@));
    }
    s
}

/// The file-store operation that `(method, path)` calls for under the
/// configured file root, or `None` when the route involves no file.
pub fn route_file_op(method: &str, path: &str, file_directory: &str) -> (r: Option<FileOp>)
    ensures
        match r {
            Some(op) => spec_file_op(method@, path@, file_directory@) == Some(op@),
            None => spec_file_op(method@, path@, file_directory@) is None,
        },
{
    proof {
        reveal_strlit("/files/");
    }
    if str_eq(method, "GET") && str_starts_with(path, "/files/") {
        Some(FileOp::Read(file_path_for(file_directory, path)))
    } else if str_eq(method, "POST") && str_starts_with(path, "/files/") {
        Some(FileOp::Write(file_path_for(file_directory, path)))
    } else {
        None
    }
}

/// Routes one request to its serialized response: the dispatch table of
/// `spec_route_base`, then `Connection: close` when requested, then
/// serialization.
pub fn route_request(method: &str, path: &str, info: &RequestInfo, file: &FileOutcome) -> (r: Vec<
    u8,
>)
    ensures
        r@ == spec_response_bytes(spec_route(method@, path@, *info, *file)),
{
    let response = if str_eq(method, "GET") && str_eq(path, "/") {
        HttpResponse::new(200)
    } else if str_eq(method, "GET") && str_eq(path, "/user-agent") {
        match &info.user_agent {
            Some(agent) => {
                let mut resp = HttpResponse::new(200).with_text_body("text/plain", agent.as_str());
                if info.accepts_gzip {
                    resp = resp.with_gzip_compression();
                }
                resp
            },
            None => HttpResponse::new(404),
        }
    } else if str_eq(method, "GET") && str_starts_with(path, "/echo/") {
        proof {
            reveal_strlit("/echo/");
        }
        let rest = path.substring_char(6, path.unicode_len());
        let mut resp = HttpResponse::new(200).with_text_body("text/plain", rest);
        if info.accepts_gzip {
            resp = resp.with_gzip_compression();
        }
        resp
    } else if str_eq(method, "GET") && str_starts_with(path, "/files/") {
        match file {
            FileOutcome::ReadOk(content) => {
                let mut resp = HttpResponse::new(200).with_text_body(
                    "application/octet-stream",
                    content.as_str(),
                );
                if info.accepts_gzip {
                    resp = resp.with_gzip_compression();
                }
                resp
            },
            _ => HttpResponse::new(404),
        }
    } else if str_eq(method, "POST") && str_starts_with(path, "/files/") {
        match file {
            FileOutcome::WriteOk => HttpResponse::new(201),
            _ => HttpResponse::new(500).with_text_body("text/plain", "Failed to write file"),
        }
    } else {
        HttpResponse::new(404)
    };
    let response = if info.close_connection {
        response.add_header("Connection", "close")
    } else {
        response
    };
    response.to_bytes()
}

/// `GET /` yields status 200 with an empty body and no `Content-Type`
/// header, whatever the request facts and file outcome; only a
/// client-requested `Connection: close` header may appear.
pub proof fn lemma_get_root(info: RequestInfo, file: FileOutcome)
    ensures
        spec_route("GET"@, "/"@, info, file).status == 200,
        spec_route("GET"@, "/"@, info, file).body == Seq::<u8>::empty(),
        spec_route("GET"@, "/"@, info, file).headers == if info.close_connection {
            seq![("Connection"@, "close"@)]
        } else {
            Seq::<(Seq<char>, Seq<char>)>::empty()
        },
{
    if info.close_connection {
        assert(spec_route("GET"@, "/"@, info, file).headers =~= seq![("Connection"@, "close"@)]);
    }
}

/// A request carrying `Connection: close` always produces a response whose
/// last header is `Connection: close`, whatever the matched route.
pub proof fn lemma_close_connection_appended(
    method: Seq<char>,
    path: Seq<char>,
    info: RequestInfo,
    file: FileOutcome,
)
    requires
        info.close_connection,
    ensures
        spec_route(method, path, info, file).headers.len() > 0,
        spec_route(method, path, info, file).headers.last() == ("Connection"@, "close"@),
{
}

/// An unmatched `(method, path)` pair yields 404 with an empty body, and no
/// headers beyond a client-requested `Connection: close`.
pub proof fn lemma_unmatched_is_404(
    method: Seq<char>,
    path: Seq<char>,
    info: RequestInfo,
    file: FileOutcome,
)
    requires
        !(method == "GET"@ && path == "/"@),
        !(method == "GET"@ && path == "/user-agent"@),
        !(method == "GET"@ && spec_starts_with(path, "/echo/"@)),
        !(method == "GET"@ && spec_starts_with(path, "/files/"@)),
        !(method == "POST"@ && spec_starts_with(path, "/files/"@)),
    ensures
        spec_route(method, path, info, file).status == 404,
        spec_route(method, path, info, file).body == Seq::<u8>::empty(),
        spec_route(method, path, info, file).headers == if info.close_connection {
            seq![("Connection"@, "close"@)]
        } else {
            Seq::<(Seq<char>, Seq<char>)>::empty()
        },
{
    if info.close_connection {
        assert(spec_route(method, path, info, file).headers =~= seq![("Connection"@, "close"@)]);
    }
}

} // verus!
