//! Internal telemetry records. Each event type computes, as plain data,
//! the counter increments and the log line it stands for; performing the
//! increments and writing the log line belong to the caller's telemetry
//! layer, outside this crate.

use vstd::prelude::*;
use crate::text::spec_dec;

verus! {

/// One counter increment: the counter's name, the amount, and its labels.
pub struct CounterUpdate {
    pub name: String,
    pub amount: u64,
    pub labels: Vec<(String, String)>,
}

/// Events were received while scraping an HTTP endpoint.
pub struct HttpScrapeEventsReceived {
    pub byte_size: usize,
    pub count: usize,
    pub url: String,
}

impl HttpScrapeEventsReceived {
    /// The counters this event increments: the received-event and
    /// received-byte totals labelled with the endpoint, and the
    /// deprecated events-in total.
    pub fn counter_updates(&self) -> (r: Vec<CounterUpdate>)
        ensures
            r@.len() == 3,
            r@[0].name@ == "component_received_events_total"@,
            r@[0].amount == self.count,
            r@[0].labels@.len() == 1 && r@[0].labels@[0].0@ == "uri"@ && r@[0].labels@[0].1@
                == self.url@,
            r@[1].name@ == "component_received_event_bytes_total"@,
            r@[1].amount == self.byte_size,
            r@[1].labels@.len() == 1 && r@[1].labels@[0].0@ == "uri"@ && r@[1].labels@[0].1@
                == self.url@,
            r@[2].name@ == "events_in_total"@,
            r@[2].amount == self.count,
            r@[2].labels@.len() == 1 && r@[2].labels@[0].0@ == "uri"@ && r@[2].labels@[0].1@
                == self.url@,
    {
        let mut r: Vec<CounterUpdate> = Vec::new();
        let mut labels1: Vec<(String, String)> = Vec::new();
        labels1.push(("uri".to_owned(), self.url.clone()));
        r.push(
            CounterUpdate {
                name: "component_received_events_total".to_owned(),
                amount: self.count as u64,
                labels: labels1,
            },
        );
        let mut labels2: Vec<(String, String)> = Vec::new();
        labels2.push(("uri".to_owned(), self.url.clone()));
        r.push(
            CounterUpdate {
                name: "component_received_event_bytes_total".to_owned(),
                amount: self.byte_size as u64,
                labels: labels2,
            },
        );
        let mut labels3: Vec<(String, String)> = Vec::new();
        labels3.push(("uri".to_owned(), self.url.clone()));
        r.push(
            CounterUpdate {
                name: "events_in_total".to_owned(),
                amount: self.count as u64,
                labels: labels3,
            },
        );
        r
    }
}

/// The error code label for an HTTP status.
pub open spec fn spec_http_error_code(code: u16) -> Seq<char> {
    "http_response_"@ + spec_dec(code as nat)
}

/// The label text naming an HTTP response error by its status code.
pub fn http_error_code(code: u16) -> (r: String)
    ensures
        r@ == spec_http_error_code(code),
{
    let mut s = "http_response_".to_owned();
    s.append(crate::text::dec_u64(code as u64).as_str());
    s
}

/// An HTTP scrape returned an error status. The status code is carried
/// as its numeric value.
pub struct HttpScrapeHttpResponseError {
    pub code: u16,
    pub url: String,
}

impl HttpScrapeHttpResponseError {
    /// The counters this event increments: the component error total
    /// labelled with the endpoint, stage and error code, and the
    /// deprecated error-response total.
    pub fn counter_updates(&self) -> (r: Vec<CounterUpdate>)
        ensures
            r@.len() == 2,
            r@[0].name@ == "component_errors_total"@,
            r@[0].amount == 1,
            r@[0].labels@.len() == 4,
            r@[0].labels@[0].0@ == "url"@ && r@[0].labels@[0].1@ == self.url@,
            r@[0].labels@[1].0@ == "stage"@ && r@[0].labels@[1].1@ == "receiving"@,
            r@[0].labels@[2].0@ == "error_type"@ && r@[0].labels@[2].1@ == "request_failed"@,
            r@[0].labels@[3].0@ == "error_code"@ && r@[0].labels@[3].1@ == spec_http_error_code(
                self.code,
            ),
            r@[1].name@ == "http_error_response_total"@,
            r@[1].amount == 1,
    {
        let mut labels: Vec<(String, String)> = Vec::new();
        labels.push(("url".to_owned(), self.url.clone()));
        labels.push(("stage".to_owned(), "receiving".to_owned()));
        labels.push(("error_type".to_owned(), "request_failed".to_owned()));
        labels.push(("error_code".to_owned(), http_error_code(self.code)));
        let mut r: Vec<CounterUpdate> = Vec::new();
        r.push(
            CounterUpdate { name: "component_errors_total".to_owned(), amount: 1, labels },
        );
        r.push(
            CounterUpdate {
                name: "http_error_response_total".to_owned(),
                amount: 1,
                labels: Vec::new(),
            },
        );
        r
    }
}

/// HTTP request processing failed. The error is carried as its text.
pub struct HttpScrapeHttpError {
    pub error: String,
    pub url: String,
}

impl HttpScrapeHttpError {
    /// The counters this event increments.
    pub fn counter_updates(&self) -> (r: Vec<CounterUpdate>)
        ensures
            r@.len() == 2,
            r@[0].name@ == "component_errors_total"@,
            r@[0].amount == 1,
            r@[0].labels@.len() == 3,
            r@[0].labels@[0].0@ == "url"@ && r@[0].labels@[0].1@ == self.url@,
            r@[0].labels@[1].0@ == "error_type"@ && r@[0].labels@[1].1@ == "request_failed"@,
            r@[0].labels@[2].0@ == "stage"@ && r@[0].labels@[2].1@ == "receiving"@,
            r@[1].name@ == "http_request_errors_total"@,
            r@[1].amount == 1,
    {
        let mut labels: Vec<(String, String)> = Vec::new();
        labels.push(("url".to_owned(), self.url.clone()));
        labels.push(("error_type".to_owned(), "request_failed".to_owned()));
        labels.push(("stage".to_owned(), "receiving".to_owned()));
        let mut r: Vec<CounterUpdate> = Vec::new();
        r.push(
            CounterUpdate { name: "component_errors_total".to_owned(), amount: 1, labels },
        );
        r.push(
            CounterUpdate {
                name: "http_request_errors_total".to_owned(),
                amount: 1,
                labels: Vec::new(),
            },
        );
        r
    }
}

/// A remap mapping failed on an event; the event may have been dropped.
pub struct RemapMappingError {
    pub event_dropped: bool,
    pub error: String,
}

impl RemapMappingError {
    /// The counters this event increments: the component error total, a
    /// dropped-event total when the event was discarded, and the
    /// deprecated processing-error total.
    pub fn counter_updates(&self) -> (r: Vec<CounterUpdate>)
        ensures
            r@.len() == if self.event_dropped {
                3int
            } else {
                2int
            },
            r@[0].name@ == "component_errors_total"@,
            r@[0].amount == 1,
            r@[0].labels@.len() == 2,
            r@[0].labels@[0].0@ == "error_type"@ && r@[0].labels@[0].1@ == "conversion_failed"@,
            r@[0].labels@[1].0@ == "stage"@ && r@[0].labels@[1].1@ == "processing"@,
            self.event_dropped ==> r@[1].name@ == "component_discarded_events_total"@
                && r@[1].amount == 1,
            r@[r@.len() - 1].name@ == "processing_errors_total"@,
            r@[r@.len() - 1].amount == 1,
    {
        let mut labels: Vec<(String, String)> = Vec::new();
        labels.push(("error_type".to_owned(), "conversion_failed".to_owned()));
        labels.push(("stage".to_owned(), "processing".to_owned()));
        let mut r: Vec<CounterUpdate> = Vec::new();
        r.push(
            CounterUpdate { name: "component_errors_total".to_owned(), amount: 1, labels },
        );
        if self.event_dropped {
            let mut dl: Vec<(String, String)> = Vec::new();
            dl.push(("intentional".to_owned(), "false".to_owned()));
            r.push(
                CounterUpdate {
                    name: "component_discarded_events_total".to_owned(),
                    amount: 1,
                    labels: dl,
                },
            );
        }
        r.push(
            CounterUpdate {
                name: "processing_errors_total".to_owned(),
                amount: 1,
                labels: Vec::new(),
            },
        );
        r
    }
}

/// A remap mapping aborted on an event; the event may have been dropped.
pub struct RemapMappingAbort {
    pub event_dropped: bool,
}

impl RemapMappingAbort {
    /// The counters this event increments: a dropped-event total when
    /// the event was discarded, and nothing otherwise.
    pub fn counter_updates(&self) -> (r: Vec<CounterUpdate>)
        ensures
            r@.len() == if self.event_dropped {
                1int
            } else {
                0int
            },
            self.event_dropped ==> r@[0].name@ == "component_discarded_events_total"@
                && r@[0].amount == 1,
    {
        let mut r: Vec<CounterUpdate> = Vec::new();
        if self.event_dropped {
            let mut dl: Vec<(String, String)> = Vec::new();
            dl.push(("intentional".to_owned(), "false".to_owned()));
            r.push(
                CounterUpdate {
                    name: "component_discarded_events_total".to_owned(),
                    amount: 1,
                    labels: dl,
                },
            );
        }
        r
    }
}

} // verus!
