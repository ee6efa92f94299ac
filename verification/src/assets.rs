//! Texts that the program carries with it.

use vstd::prelude::*;

verus! {

/// The license of the project, and what it owes to others.
pub const LICENSE_TEXT: &'static str =
    "# Project License\n\nMIT License\n\nPermission is hereby granted, free of charge, to any person obtaining a copy of this software and associated documentation files (the \"Software\"), to deal in the Software without restriction, including without limitation the rights to use, copy, modify, merge, publish, distribute, sublicense, and/or sell copies of the Software, and to permit persons to whom the Software is furnished to do so, subject to the following conditions:\n\nThe above copyright notice and this permission notice shall be included in all copies or substantial portions of the Software.\n\nTHE SOFTWARE IS PROVIDED \"AS IS\", WITHOUT WARRANTY OF ANY KIND, EXPRESS OR IMPLIED, INCLUDING BUT NOT LIMITED TO THE WARRANTIES OF MERCHANTABILITY, FITNESS FOR A PARTICULAR PURPOSE AND NONINFRINGEMENT. IN NO EVENT SHALL THE AUTHORS OR COPYRIGHT HOLDERS BE LIABLE FOR ANY CLAIM, DAMAGES OR OTHER LIABILITY, WHETHER IN AN ACTION OF CONTRACT, TORT OR OTHERWISE, ARISING FROM, OUT OF OR IN CONNECTION WITH THE SOFTWARE OR THE USE OR OTHER DEALINGS IN THE SOFTWARE.\n\n# Third-Party Crate Attributions\n\nbase64, bcrypt, brotli, bytes, clap, flate2, h3, h3-quinn, http, http-body-util, hyper, hyper-util, md-5, mime_guess, nix, quinn, rcgen, regex, ring, rustls, rustls-pemfile, serde_json, serde_yaml, sha1, signal-hook, time, tokio, webpki-roots\n";

} // verus!
