use vstd::prelude::*;

verus! {

/// One call the connection makes on the native response when it ends.
#[derive(Debug)]
pub enum ResponseStep {
    WriteStatus(String),
    WriteHeader(String, String),
    End(Vec<u8>),
    EndWithoutBody,
}

/// The status line and headers a handler has set, to be written when the
/// response ends.
pub struct ResponseDraft {
    status: Option<String>,
    headers: Vec<(String, String)>,
}

/// The calls that end a response: the status if one was set, then every header in
/// the order it was written, then the end of the response with or without a body.
pub open spec fn end_steps(
    status: Option<String>,
    headers: Seq<(String, String)>,
    data: Option<Vec<u8>>,
) -> Seq<ResponseStep> {
    let header_steps = headers.map_values(|h: (String, String)| ResponseStep::WriteHeader(h.0, h.1));
    let last = match data {
        Some(d) => ResponseStep::End(d),
        None => ResponseStep::EndWithoutBody,
    };
    status_steps(status) + header_steps + seq![last]
}

/// The call that writes the status line, if one was set.
pub open spec fn status_steps(status: Option<String>) -> Seq<ResponseStep> {
    match status {
        Some(s) => seq![ResponseStep::WriteStatus(s)],
        None => Seq::empty(),
    }
}

/// The steps [`ResponseDraft::end_plan`] promises write the status first whenever one
/// was set, whether or not there is a body, then the headers in order, then the end.
pub proof fn lemma_end_steps_in_order(
    status: Option<String>,
    headers: Seq<(String, String)>,
    data: Option<Vec<u8>>,
)
    ensures
        status matches Some(s) ==> end_steps(status, headers, data).len() > 0 && end_steps(status, headers, data)[0] == ResponseStep::WriteStatus(s),
        end_steps(status, headers, data).len() == (if status is Some { 1int } else { 0int }) + headers.len() + 1,
        forall|i: int|
            0 <= i < headers.len() ==> end_steps(status, headers, data)[(if status is Some { 1int } else { 0int }) + i]
                == ResponseStep::WriteHeader(#[trigger] headers[i].0, headers[i].1),
        data matches Some(d) ==> end_steps(status, headers, data)[end_steps(status, headers, data).len() - 1] == ResponseStep::End(d),
        data is None ==> end_steps(status, headers, data)[end_steps(status, headers, data).len() - 1] == ResponseStep::EndWithoutBody,
{
    let steps = end_steps(status, headers, data);
    let offset: int = if status is Some { 1 } else { 0 };
    let hs = headers.map_values(|h: (String, String)| ResponseStep::WriteHeader(h.0, h.1));
    assert(status_steps(status).len() == offset);
    assert forall|i: int| 0 <= i < headers.len() implies steps[offset + i]
        == ResponseStep::WriteHeader(#[trigger] headers[i].0, headers[i].1) by {
        assert(steps[offset + i] == hs[i]);
    }
}

impl ResponseDraft {
    pub closed spec fn spec_status(&self) -> Option<String> {
        self.status
    }

    pub closed spec fn spec_headers(&self) -> Seq<(String, String)> {
        self.headers@
    }

    pub fn new() -> (r: Self)
        ensures
            r.spec_status() is None,
            r.spec_headers().len() == 0,
    {
        ResponseDraft { status: None, headers: Vec::new() }
    }

    /// Sets the status line, replacing any earlier one.
    pub fn write_status(&mut self, status: String)
        ensures
            final(self).spec_status() == Some(status),
            final(self).spec_headers() == old(self).spec_headers(),
    {
        self.status = Some(status);
    }

    /// Adds a header after those already written.
    pub fn write_header(&mut self, key: String, value: String)
        ensures
            final(self).spec_status() == old(self).spec_status(),
            final(self).spec_headers() == old(self).spec_headers().push((key, value)),
    {
        self.headers.push((key, value));
    }

    /// The calls that end the response, `data` being its body if any.
    pub fn end_plan(self, data: Option<Vec<u8>>) -> (r: Vec<ResponseStep>)
        ensures
            r@ == end_steps(self.spec_status(), self.spec_headers(), data),
            self.spec_status() matches Some(s) ==> r@.len() > 0 && r@[0] == ResponseStep::WriteStatus(s),
            r@.len() == (if self.spec_status() is Some { 1int } else { 0int }) + self.spec_headers().len() + 1,
            forall|i: int|
                0 <= i < self.spec_headers().len() ==> r@[(if self.spec_status() is Some { 1int } else { 0int }) + i]
                    == ResponseStep::WriteHeader(#[trigger] self.spec_headers()[i].0, self.spec_headers()[i].1),
            data matches Some(d) ==> r@[r@.len() - 1] == ResponseStep::End(d),
            data is None ==> r@[r@.len() - 1] == ResponseStep::EndWithoutBody,
    {
        proof {
            lemma_end_steps_in_order(self.status, self.headers@, data);
        }
        let ghost first_steps = status_steps(self.status);
        let ghost all_headers = self.headers@;
        let mut steps: Vec<ResponseStep> = Vec::new();
        match self.status {
            Some(s) => steps.push(ResponseStep::WriteStatus(s)),
            None => {},
        }
        let n = self.headers.len();
        let mut i: usize = 0;
        while i < n
            invariant
                n == all_headers.len(),
                all_headers == self.headers@,
                i <= n,
                steps@ =~= first_steps + all_headers.take(i as int).map_values(
                    |h: (String, String)| ResponseStep::WriteHeader(h.0, h.1),
                ),
            decreases n - i,
        {
            let key = self.headers[i].0.clone();
            let value = self.headers[i].1.clone();
            steps.push(ResponseStep::WriteHeader(key, value));
            proof {
                assert(all_headers.take(i + 1) =~= all_headers.take(i as int).push(all_headers[i as int]));
            }
            i = i + 1;
        }
        proof {
            assert(all_headers.take(n as int) =~= all_headers);
        }
        match data {
            Some(d) => steps.push(ResponseStep::End(d)),
            None => steps.push(ResponseStep::EndWithoutBody),
        }
        steps
    }
}

} // verus!
