//! Labels of the request metrics.
use vstd::prelude::*;

verus! {

/// The outcome of an upstream request.
#[derive(Clone, Copy, Debug, Hash, PartialEq, Eq, Structural)]
pub enum ErrorClass {
    /// 2xx success; its label is the empty string.
    Empty,
    /// HTTP 429 Too Many Requests.
    Http429,
    /// HTTP 500 Internal Server Error.
    Http500,
    /// HTTP 503 Service Unavailable.
    Http503,
    /// Other 4xx client errors.
    Http4xx,
    /// Other 5xx server errors.
    Http5xx,
    /// The upstream request timed out.
    Timeout,
    /// A failure of the network.
    Network,
    /// The upstream stream ended before it was complete.
    StreamTruncated,
}

/// The class of an HTTP status: success, one of the three that have a class of
/// their own, another client or server error, and else a network failure.
pub open spec fn class_of(status: u16) -> ErrorClass {
    if 200 <= status <= 299 {
        ErrorClass::Empty
    } else if status == 429 {
        ErrorClass::Http429
    } else if status == 500 {
        ErrorClass::Http500
    } else if status == 503 {
        ErrorClass::Http503
    } else if 400 <= status <= 499 {
        ErrorClass::Http4xx
    } else if 501 <= status <= 599 {
        ErrorClass::Http5xx
    } else {
        ErrorClass::Network
    }
}

/// The label of a class.
pub open spec fn label_of(c: ErrorClass) -> Seq<char> {
    match c {
        ErrorClass::Empty => ""@,
        ErrorClass::Http429 => "http_429"@,
        ErrorClass::Http500 => "http_500"@,
        ErrorClass::Http503 => "http_503"@,
        ErrorClass::Http4xx => "http_4xx"@,
        ErrorClass::Http5xx => "http_5xx"@,
        ErrorClass::Timeout => "timeout"@,
        ErrorClass::Network => "network"@,
        ErrorClass::StreamTruncated => "stream_truncated"@,
    }
}

impl ErrorClass {
    /// Classify an HTTP status.
    pub fn from_status(status: u16) -> (r: ErrorClass)
        ensures
            r == class_of(status),
    {
        match status {
            200..=299 => ErrorClass::Empty,
            429 => ErrorClass::Http429,
            500 => ErrorClass::Http500,
            503 => ErrorClass::Http503,
            400..=499 => ErrorClass::Http4xx,
            501..=599 => ErrorClass::Http5xx,
            _ => ErrorClass::Network,
        }
    }

    /// The value of the `error_class` label.
    pub fn label(&self) -> (r: &'static str)
        ensures
            r@ == label_of(*self),
    {
        match self {
            ErrorClass::Empty => "",
            ErrorClass::Http429 => "http_429",
            ErrorClass::Http500 => "http_500",
            ErrorClass::Http503 => "http_503",
            ErrorClass::Http4xx => "http_4xx",
            ErrorClass::Http5xx => "http_5xx",
            ErrorClass::Timeout => "timeout",
            ErrorClass::Network => "network",
            ErrorClass::StreamTruncated => "stream_truncated",
        }
    }
}

/// Two classes with the same label are the same class.
pub proof fn labels_tell_classes_apart(a: ErrorClass, b: ErrorClass)
    requires
        label_of(a) == label_of(b),
    ensures
        a == b,
{
    reveal_strlit("");
    reveal_strlit("http_429");
    reveal_strlit("http_500");
    reveal_strlit("http_503");
    reveal_strlit("http_4xx");
    reveal_strlit("http_5xx");
    reveal_strlit("timeout");
    reveal_strlit("network");
    reveal_strlit("stream_truncated");
    let x = label_of(a);
    let y = label_of(b);
    assert(x.len() == y.len());
    assert(x.len() > 5 ==> x[5] == y[5] && x[6] == y[6]);
    assert(x.len() > 7 ==> x[7] == y[7]);
    assert(x.len() > 0 ==> x[0] == y[0]);
}

/// Labels of the request counter.
#[derive(Clone, Debug, Hash, PartialEq, Eq)]
pub struct ErrorLabels {
    pub provider: String,
    pub route: String,
    pub model: String,
    pub error_class: ErrorClass,
}

/// Labels of the token counters.
#[derive(Clone, Debug, Hash, PartialEq, Eq)]
pub struct TokenLabels {
    pub provider: String,
    pub route: String,
    pub model: String,
}

/// Labels of the latency histograms.
#[derive(Clone, Debug, Hash, PartialEq, Eq)]
pub struct LatencyLabels {
    pub provider: String,
    pub route: String,
    pub model: String,
}

/// Labels of the gauge of requests in flight.
#[derive(Clone, Debug, Hash, PartialEq, Eq)]
pub struct GaugeLabels {
    pub provider: String,
    pub route: String,
}

impl ErrorLabels {
    pub fn new(provider: &str, route: &str, model: &str, error_class: ErrorClass) -> (r:
        ErrorLabels)
        ensures
            r.provider@ == provider@,
            r.route@ == route@,
            r.model@ == model@,
            r.error_class == error_class,
    {
        ErrorLabels {
            provider: provider.to_owned(),
            route: route.to_owned(),
            model: model.to_owned(),
            error_class,
        }
    }
}

impl TokenLabels {
    pub fn new(provider: &str, route: &str, model: &str) -> (r: TokenLabels)
        ensures
            r.provider@ == provider@,
            r.route@ == route@,
            r.model@ == model@,
    {
        TokenLabels {
            provider: provider.to_owned(),
            route: route.to_owned(),
            model: model.to_owned(),
        }
    }
}

impl LatencyLabels {
    pub fn new(provider: &str, route: &str, model: &str) -> (r: LatencyLabels)
        ensures
            r.provider@ == provider@,
            r.route@ == route@,
            r.model@ == model@,
    {
        LatencyLabels {
            provider: provider.to_owned(),
            route: route.to_owned(),
            model: model.to_owned(),
        }
    }
}

impl GaugeLabels {
    pub fn new(provider: &str, route: &str) -> (r: GaugeLabels)
        ensures
            r.provider@ == provider@,
            r.route@ == route@,
    {
        GaugeLabels { provider: provider.to_owned(), route: route.to_owned() }
    }
}

} // verus!
