use vstd::prelude::*;

verus! {

/// An HTTP request as handed to route handlers.
#[derive(Debug)]
pub struct HttpRequest {
    pub headers: Vec<(String, String)>,
    pub full_url: String,
    pub url: String,
    pub method: String,
    pub case_sensitive_method: String,
    pub parameters: Vec<String>,
}

/// `i` is the position of the first header of `headers` named `name`.
pub open spec fn is_first_header(headers: Seq<(String, String)>, name: Seq<char>, i: int) -> bool {
    &&& 0 <= i < headers.len()
    &&& headers[i].0@ == name
    &&& forall|j: int| 0 <= j < i ==> #[trigger] headers[j].0@ != name
}

/// Some header of `headers` is named `name`.
pub open spec fn has_header(headers: Seq<(String, String)>, name: Seq<char>) -> bool {
    exists|i: int| 0 <= i < headers.len() && #[trigger] headers[i].0@ == name
}

/// The value of the first header named `name`, if there is one.
pub open spec fn header_value(headers: Seq<(String, String)>, name: Seq<char>) -> Option<Seq<char>> {
    if has_header(headers, name) {
        let i = choose|i: int| is_first_header(headers, name, i);
        Some(headers[i].1@)
    } else {
        None
    }
}

/// The first header is unique.
pub proof fn lemma_first_header_unique(headers: Seq<(String, String)>, name: Seq<char>, i: int, k: int)
    requires
        is_first_header(headers, name, i),
        is_first_header(headers, name, k),
    ensures
        i == k,
{
    if i < k {
        assert(headers[i].0@ != name);
    } else if k < i {
        assert(headers[k].0@ != name);
    }
}

/// The value looked up for a name is the value of the first header with exactly that
/// name, and there is none exactly when no header has that name.
pub proof fn lemma_header_value_is_first(headers: Seq<(String, String)>, name: Seq<char>)
    ensures
        header_value(headers, name) is None <==> forall|i: int|
            0 <= i < headers.len() ==> #[trigger] headers[i].0@ != name,
        forall|i: int|
            is_first_header(headers, name, i) ==> header_value(headers, name) == Some(
                #[trigger] headers[i].1@,
            ),
{
    if has_header(headers, name) {
        let w = choose|i: int| 0 <= i < headers.len() && #[trigger] headers[i].0@ == name;
        lemma_first_header_exists(headers, name, w);
        let k = choose|k: int| is_first_header(headers, name, k);
        assert forall|i: int| is_first_header(headers, name, i) implies header_value(headers, name)
            == Some(#[trigger] headers[i].1@) by {
            lemma_first_header_unique(headers, name, i, k);
        }
    }
}

/// If some header at or before `w` has the name, a first such header exists.
proof fn lemma_first_header_exists(headers: Seq<(String, String)>, name: Seq<char>, w: int)
    requires
        0 <= w < headers.len(),
        headers[w].0@ == name,
    ensures
        exists|k: int| is_first_header(headers, name, k),
    decreases w,
{
    if forall|j: int| 0 <= j < w ==> #[trigger] headers[j].0@ != name {
        assert(is_first_header(headers, name, w));
    } else {
        let j = choose|j: int| 0 <= j < w && #[trigger] headers[j].0@ == name;
        lemma_first_header_exists(headers, name, j);
    }
}

/// The headers a WebSocket upgrade needs from the request.
#[derive(Debug)]
pub struct WsUpgradeHeaders {
    pub key: String,
    pub protocol: Option<String>,
    pub extensions: Option<String>,
}

impl HttpRequest {
    /// The value of the first header named exactly `header_name`.
    pub fn get_header(&self, header_name: &str) -> (r: Option<&str>)
        ensures
            r matches Some(v) ==> Some(v@) == header_value(self.headers@, header_name@),
            r is None ==> header_value(self.headers@, header_name@) is None,
            r matches Some(v) ==> exists|i: int|
                0 <= i < self.headers@.len() && #[trigger] self.headers@[i].0@ == header_name@
                    && v@ == self.headers@[i].1@ && forall|j: int|
                    0 <= j < i ==> #[trigger] self.headers@[j].0@ != header_name@,
            r is None ==> forall|i: int|
                0 <= i < self.headers@.len() ==> #[trigger] self.headers@[i].0@ != header_name@,
    {
        let name: String = header_name.to_owned();
        let n = self.headers.len();
        let mut i: usize = 0;
        while i < n
            invariant
                n == self.headers@.len(),
                i <= n,
                name@ == header_name@,
                forall|j: int| 0 <= j < i ==> #[trigger] self.headers@[j].0@ != name@,
            decreases n - i,
        {
            if self.headers[i].0 == name {
                proof {
                    assert(is_first_header(self.headers@, name@, i as int));
                    lemma_first_header_exists(self.headers@, name@, i as int);
                    let k = choose|k: int| is_first_header(self.headers@, name@, k);
                    lemma_first_header_unique(self.headers@, name@, i as int, k);
                }
                return Some(self.headers[i].1.as_str());
            }
            i = i + 1;
        }
        None
    }

    /// The `sec-websocket-key`, `sec-websocket-protocol` and `sec-websocket-extensions`
    /// headers; `None` when the request has no `sec-websocket-key`.
    pub fn ws_upgrade_headers(&self) -> (r: Option<WsUpgradeHeaders>)
        ensures
            r is None <==> header_value(self.headers@, "sec-websocket-key"@) is None,
            r matches Some(h) ==> {
                &&& Some(h.key@) == header_value(self.headers@, "sec-websocket-key"@)
                &&& optional_text(h.protocol) == header_value(
                    self.headers@,
                    "sec-websocket-protocol"@,
                )
                &&& optional_text(h.extensions) == header_value(
                    self.headers@,
                    "sec-websocket-extensions"@,
                )
            },
    {
        let key = match self.get_header("sec-websocket-key") {
            Some(k) => k.to_owned(),
            None => {
                return None;
            },
        };
        let protocol = match self.get_header("sec-websocket-protocol") {
            Some(p) => Some(p.to_owned()),
            None => None,
        };
        let extensions = match self.get_header("sec-websocket-extensions") {
            Some(e) => Some(e.to_owned()),
            None => None,
        };
        Some(WsUpgradeHeaders { key, protocol, extensions })
    }
}

/// The text of an optional string.
pub open spec fn optional_text(s: Option<String>) -> Option<Seq<char>> {
    match s {
        Some(v) => Some(v@),
        None => None,
    }
}

/// A present string is carried with exactly its text; an absent one stays absent.
pub proof fn lemma_optional_text(s: Option<String>)
    ensures
        s matches Some(v) ==> optional_text(s) == Some(v@),
        s is None ==> optional_text(s) is None,
{
}

} // verus!
