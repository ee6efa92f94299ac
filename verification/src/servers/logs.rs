//! Logs: the lines that are written, and the files that they go to.

use vstd::prelude::*;

use crate::digits::{decimal, decimal_of};
use crate::paths::{join_path, under_dir};
use crate::servers::scripts::client_parts;
use crate::supports::calendar::{format_http_date, http_date};
use crate::supports::rotation::{
    due, keep_of, parse_keep, parse_rotate, rotation_of, should_rotate, sizes_fit, KeepPolicy,
    RotatePolicy,
};
use crate::table::Table;
use crate::text::{rsplit_once_at, split};

verus! {

/// A header field, or a dash where it is missing.
pub open spec fn field_or_dash(h: Map<Seq<char>, Seq<char>>, name: Seq<char>) -> Seq<char> {
    if h.contains_key(name) {
        h[name]
    } else {
        "-"@
    }
}

/// The line of an answered request.
pub open spec fn access_text(
    client: Seq<char>,
    method: Seq<char>,
    path: Seq<char>,
    version: Seq<char>,
    status: u16,
    bytes: u64,
    headers: Map<Seq<char>, Seq<char>>,
    now: u64,
) -> Seq<char> {
    client_parts(client).0 + " - - ["@ + http_date(now as int) + "] \""@ + method + " "@ + path
        + " "@ + version + "\" "@ + decimal(status as int) + " "@ + decimal(bytes as int) + " \""@
        + field_or_dash(headers, "referer"@) + "\" \""@ + field_or_dash(headers, "user-agent"@)
        + "\"\n"@
}

/// The line of an answered request.
pub fn access_line(
    client: &str,
    method: &str,
    path: &str,
    version: &str,
    status: u16,
    bytes: u64,
    headers: &Table<String>,
    now: u64,
) -> (r: String)
    ensures
        r@ == access_text(
            client@,
            method@,
            path@,
            version@,
            status,
            bytes,
            headers@,
            now,
        ),
{
    let mut out = match rsplit_once_at(client, ':') {
        Some(p) => p.0,
        None => client.to_owned(),
    };
    out.append(" - - [");
    out.append(format_http_date(now).as_str());
    out.append("] \"");
    out.append(method);
    out.append(" ");
    out.append(path);
    out.append(" ");
    out.append(version);
    out.append("\" ");
    out.append(decimal_of(status as u64).as_str());
    out.append(" ");
    out.append(decimal_of(bytes).as_str());
    out.append(" \"");
    out.append(headers.get_or("referer", "-").as_str());
    out.append("\" \"");
    out.append(headers.get_or("user-agent", "-").as_str());
    out.append("\"\n");
    out
}

/// The line of an error.
pub fn error_line(message: &str, now: u64) -> (r: String)
    ensures
        r@ == "["@ + http_date(now as int) + "] [error] "@ + message@ + "\n"@,
{
    let mut out = "[".to_owned();
    out.append(format_http_date(now).as_str());
    out.append("] [error] ");
    out.append(message);
    out.append("\n");
    out
}

/// The file of a log of a project.
pub open spec fn log_path(dir: Seq<char>, name: Seq<char>, suffix: Seq<char>) -> Seq<char> {
    under_dir(dir, name + suffix)
}

/// The files of the access log and of the error log of a project.
pub fn log_files(log_dir: &str, name: &str) -> (r: (String, String))
    ensures
        r.0@ == log_path(log_dir@, name@, "_access.log"@),
        r.1@ == log_path(log_dir@, name@, "_error.log"@),
{
    let mut access = name.to_owned();
    access.append("_access.log");
    let mut error = name.to_owned();
    error.append("_error.log");
    (join_path(log_dir, access.as_str()), join_path(log_dir, error.as_str()))
}

/// A log: its file, and when a new one is due.
#[derive(Debug)]
pub struct LogStream {
    /// The file.
    pub path: String,
    /// When a new file is started.
    pub rotate: RotatePolicy,
    /// How long old files stay.
    pub keep: KeepPolicy,
    /// When the file was started, in seconds since 1970.
    pub period_start: u64,
}

impl LogStream {
    /// A log in a file, which was changed at a time if it is there already.
    pub fn open(
        path: &str,
        rotate_spec: &str,
        keep_spec: &str,
        modified: Option<u64>,
        now: u64,
    ) -> (r: LogStream)
        requires
            sizes_fit(split(rotate_spec@, ',')),
        ensures
            r.path@ == path@,
            r.rotate.model() == rotation_of(split(rotate_spec@, ',')),
            r.keep == keep_of(keep_spec@),
            r.period_start == (match modified {
                Some(t) => t,
                None => now,
            }),
    {
        let period_start: u64 = match modified {
            Some(t) => t,
            None => now,
        };
        LogStream {
            path: path.to_owned(),
            rotate: parse_rotate(rotate_spec),
            keep: parse_keep(keep_spec),
            period_start,
        }
    }

    /// Whether a new file is due before the next line, where the file has a
    /// length.
    pub fn needs_rotation(&self, len: u64, now: u64) -> (r: bool)
        ensures
            r == due(self.rotate, len as int, self.period_start as int, now as int),
    {
        should_rotate(&self.rotate, len, self.period_start, now)
    }

    /// Notes that a new file was started.
    pub fn rotated(&mut self, now: u64)
        ensures
            *final(self) == (LogStream { period_start: now, ..*old(self) }),
    {
        self.period_start = now;
    }
}

/// A file that was just started is not due for its age.
pub proof fn new_files_are_young(p: RotatePolicy, len: int, now: int)
    requires
        p.size_bytes is Some ==> len < p.size_bytes->0,
    ensures
        !due(p, len, now, now),
{
}

} // verus!
