use vstd::prelude::*;
use vstd::string::StringExecFns;

verus! {

/// Where a request is routed, judged from the first bytes the client
/// sent.
#[derive(Clone, Copy, Debug, PartialEq, Eq, Structural)]
pub enum Route {
    /// A plain fetch of the front page.
    Root,
    /// A fetch of the deliberately slow page.
    Sleep,
    /// Anything else.
    NotFound,
}

/// The bytes of the request line "GET / HTTP/1.1\r\n".
pub open spec fn root_line() -> Seq<u8> {
    seq![71u8, 69u8, 84u8, 32u8, 47u8, 32u8, 72u8, 84u8, 84u8, 80u8, 47u8, 49u8, 46u8, 49u8, 13u8, 10u8]
}

/// The bytes of the request line "GET /sleep HTTP/1.1\r\n".
pub open spec fn sleep_line() -> Seq<u8> {
    seq![71u8, 69u8, 84u8, 32u8, 47u8, 115u8, 108u8, 101u8, 101u8, 112u8, 32u8, 72u8, 84u8, 84u8, 80u8, 47u8, 49u8, 46u8, 49u8, 13u8, 10u8]
}

/// Whether `data` begins with `prefix`.
pub open spec fn has_prefix(data: Seq<u8>, prefix: Seq<u8>) -> bool {
    data.len() >= prefix.len() && data.subrange(0, prefix.len() as int) == prefix
}

/// Where a buffer of request bytes is routed: the root page for a plain
/// root fetch, the slow page for a fetch of /sleep, and the not-found
/// page for everything else.
pub open spec fn spec_classify(data: Seq<u8>) -> Route {
    if has_prefix(data, root_line()) {
        Route::Root
    } else if has_prefix(data, sleep_line()) {
        Route::Sleep
    } else {
        Route::NotFound
    }
}

/// Whether `data` begins with `prefix`, decided byte by byte.
pub fn bytes_have_prefix(data: &Vec<u8>, prefix: &Vec<u8>) -> (r: bool)
    ensures
        r == has_prefix(data@, prefix@),
{
    if data.len() < prefix.len() {
        return false;
    }
    let mut k: usize = 0;
    while k < prefix.len()
        invariant
            k <= prefix@.len() <= data@.len(),
            forall|i: int| 0 <= i < k ==> data@[i] == prefix@[i],
        decreases prefix@.len() - k,
    {
        if data[k] != prefix[k] {
            proof {
                assert(data@.subrange(0, prefix@.len() as int)[k as int] == data@[k as int]);
            }
            return false;
        }
        k += 1;
    }
    proof {
        assert(data@.subrange(0, prefix@.len() as int) =~= prefix@);
    }
    true
}

/// The bytes of "GET / HTTP/1.1\r\n", built for matching.
pub fn root_line_bytes() -> (v: Vec<u8>)
    ensures
        v@ == root_line(),
{
    let mut v: Vec<u8> = Vec::new();
    v.push(71);
    v.push(69);
    v.push(84);
    v.push(32);
    v.push(47);
    v.push(32);
    v.push(72);
    v.push(84);
    v.push(84);
    v.push(80);
    v.push(47);
    v.push(49);
    v.push(46);
    v.push(49);
    v.push(13);
    v.push(10);
    proof {
        assert(v@ =~= root_line());
    }
    v
}

/// The bytes of "GET /sleep HTTP/1.1\r\n", built for matching.
pub fn sleep_line_bytes() -> (v: Vec<u8>)
    ensures
        v@ == sleep_line(),
{
    let mut v: Vec<u8> = Vec::new();
    v.push(71);
    v.push(69);
    v.push(84);
    v.push(32);
    v.push(47);
    v.push(115);
    v.push(108);
    v.push(101);
    v.push(101);
    v.push(112);
    v.push(32);
    v.push(72);
    v.push(84);
    v.push(84);
    v.push(80);
    v.push(47);
    v.push(49);
    v.push(46);
    v.push(49);
    v.push(13);
    v.push(10);
    proof {
        assert(v@ =~= sleep_line());
    }
    v
}

/// Route a buffer of request bytes, as `spec_classify` says.
pub fn classify_request(buffer: &Vec<u8>) -> (r: Route)
    ensures
        r == spec_classify(buffer@),
{
    let root = root_line_bytes();
    if bytes_have_prefix(buffer, &root) {
        return Route::Root;
    }
    let sleep = sleep_line_bytes();
    if bytes_have_prefix(buffer, &sleep) {
        return Route::Sleep;
    }
    Route::NotFound
}

/// The whole response for a status line and a body: the status line, a
/// blank line, then the body.
pub fn build_response(status_line: &str, content: &str) -> (r: String)
    ensures
        r@ == status_line@ + "\r\n\r\n"@ + content@,
{
    let mut r: String = <String as StringExecFns>::from_str(status_line);
    r.append("\r\n\r\n");
    r.append(content);
    r
}

impl Route {
    /// The status line of this route's response.
    pub open spec fn spec_status_line(self) -> Seq<char> {
        match self {
            Route::Root => "HTTP/1.1 200 OK"@,
            Route::Sleep => "HTTP/1.1 200 OK"@,
            Route::NotFound => "HTTP/1.1 404 NOT FOUND"@,
        }
    }

    /// The name of the resource whose content answers this route.
    pub open spec fn spec_file_name(self) -> Seq<char> {
        match self {
            Route::Root => "hello.html"@,
            Route::Sleep => "sleep.html"@,
            Route::NotFound => "404.html"@,
        }
    }

    /// How many whole seconds the handler pauses before answering.
    pub open spec fn spec_delay_seconds(self) -> u64 {
        match self {
            Route::Root => 0,
            Route::Sleep => 2,
            Route::NotFound => 0,
        }
    }

    /// The status line of this route's response.
    pub fn status_line(&self) -> (r: &'static str)
        ensures
            r@ == self.spec_status_line(),
    {
        match self {
            Route::Root => "HTTP/1.1 200 OK",
            Route::Sleep => "HTTP/1.1 200 OK",
            Route::NotFound => "HTTP/1.1 404 NOT FOUND",
        }
    }

    /// The name of the resource whose content answers this route.
    pub fn file_name(&self) -> (r: &'static str)
        ensures
            r@ == self.spec_file_name(),
    {
        match self {
            Route::Root => "hello.html",
            Route::Sleep => "sleep.html",
            Route::NotFound => "404.html",
        }
    }

    /// How many whole seconds the handler pauses before answering.
    pub fn delay_seconds(&self) -> (r: u64)
        ensures
            r == self.spec_delay_seconds(),
    {
        match self {
            Route::Root => 0,
            Route::Sleep => 2,
            Route::NotFound => 0,
        }
    }
}

} // verus!
