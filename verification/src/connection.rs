use vstd::prelude::*;
use vstd::string::*;

verus! {

/// The character of the decimal digit `d`.
pub open spec fn digit_char(d: nat) -> char {
    (48 + d) as char
}

/// The decimal representation of `n`, without leading zeros.
pub open spec fn decimal_digits(n: nat) -> Seq<char>
    decreases n,
{
    if n < 10 {
        seq![digit_char(n)]
    } else {
        decimal_digits(n / 10) + seq![digit_char(n % 10)]
    }
}

/// The decimal digit `d` (below 10) as a one-character string.
fn digit_str(d: usize) -> (s: &'static str)
    requires
        d < 10,
    ensures
        s@ == seq![digit_char(d as nat)],
{
    proof {
        reveal_strlit("0");
        reveal_strlit("1");
        reveal_strlit("2");
        reveal_strlit("3");
        reveal_strlit("4");
        reveal_strlit("5");
        reveal_strlit("6");
        reveal_strlit("7");
        reveal_strlit("8");
        reveal_strlit("9");
    }
    let s = if d == 0 {
        "0"
    } else if d == 1 {
        "1"
    } else if d == 2 {
        "2"
    } else if d == 3 {
        "3"
    } else if d == 4 {
        "4"
    } else if d == 5 {
        "5"
    } else if d == 6 {
        "6"
    } else if d == 7 {
        "7"
    } else if d == 8 {
        "8"
    } else {
        "9"
    };
    assert(s@ =~= seq![digit_char(d as nat)]);
    s
}

/// The decimal text of `n`: its digits without leading zeros (`0` for zero).
fn decimal_text(n: usize) -> (s: String)
    ensures
        s@ == decimal_digits(n as nat),
{
    // The digits, least significant first.
    let mut digits: Vec<usize> = Vec::new();
    let mut w: usize = n;
    let ghost mut suffix: Seq<char> = Seq::empty();
    while w >= 10
        invariant
            forall|j: int| 0 <= j < digits@.len() ==> #[trigger] digits@[j] < 10,
            suffix == Seq::new(digits@.len(), |j: int| digit_char(digits@[digits@.len() - 1 - j] as nat)),
            decimal_digits(n as nat) == decimal_digits(w as nat) + suffix,
        decreases w,
    {
        let d = w % 10;
        proof {
            let old_suffix = suffix;
            suffix = seq![digit_char(d as nat)] + old_suffix;
            assert(decimal_digits(w as nat) == decimal_digits((w / 10) as nat) + seq![digit_char(d as nat)]);
            assert(decimal_digits(w as nat) + old_suffix =~= decimal_digits((w / 10) as nat) + suffix);
        }
        digits.push(d);
        w = w / 10;
        proof {
            assert(suffix =~= Seq::new(digits@.len(), |j: int| digit_char(digits@[digits@.len() - 1 - j] as nat)));
        }
    }
    proof {
        let old_suffix = suffix;
        suffix = seq![digit_char(w as nat)] + old_suffix;
        assert(decimal_digits(n as nat) =~= suffix);
    }
    digits.push(w);
    proof {
        assert(suffix =~= Seq::new(digits@.len(), |j: int| digit_char(digits@[digits@.len() - 1 - j] as nat)));
    }
    let count = digits.len();
    let mut text = String::new();
    let mut k: usize = count;
    while k > 0
        invariant
            k <= count,
            digits@.len() == count,
            forall|j: int| 0 <= j < count ==> #[trigger] digits@[j] < 10,
            suffix == Seq::new(count as nat, |j: int| digit_char(digits@[count - 1 - j] as nat)),
            text@ == suffix.take(count - k),
        decreases k,
    {
        k = k - 1;
        let piece = digit_str(digits[k]);
        text.append(piece);
        proof {
            assert(suffix[count - 1 - k as int] == digit_char(digits@[k as int] as nat));
            assert(text@ =~= suffix.take(count - k));
        }
    }
    assert(suffix.take(count as int) =~= suffix);
    text
}

/// The URL scheme of a WebSocket connection, secure or not.
pub open spec fn websocket_scheme(secure: bool) -> Seq<char> {
    if secure {
        seq!['w', 's', 's']
    } else {
        seq!['w', 's']
    }
}

/// The WebSocket URL for an address and a port: the scheme (`wss` when secure, `ws`
/// otherwise), `://`, the address, `:` and the port in decimal.
pub fn addr_port_to_url(secure: bool, addr: &str, port: usize) -> (url: String)
    ensures
        url@ == websocket_scheme(secure) + seq![':', '/', '/'] + addr@ + seq![':'] + decimal_digits(port as nat),
{
    let mut url = if secure {
        String::from_str("wss")
    } else {
        String::from_str("ws")
    };
    proof {
        reveal_strlit("wss");
        reveal_strlit("ws");
        reveal_strlit("://");
        reveal_strlit(":");
    }
    url.append("://");
    url.append(addr);
    url.append(":");
    let port_text = decimal_text(port);
    url.append(port_text.as_str());
    proof {
        assert(url@ =~= websocket_scheme(secure) + seq![':', '/', '/'] + addr@ + seq![':'] + decimal_digits(port as nat));
    }
    url
}

/// What can go wrong with a connection to the server.
#[derive(Debug)]
pub enum Error {
    /// The connection failed or could not be established; the message says where to look.
    ConnectionError(String),
    /// The server closed the connection.
    ConnectionClosed,
}

/// The state of a WebSocket connection as the browser reports it.
#[derive(Clone, Copy, Debug, PartialEq, Eq, Structural)]
pub enum ConnectionStatus {
    Pending,
    Open,
    Closed,
    Error,
}

impl ConnectionStatus {
    /// The status for the code that the browser's WebSocket glue reports: 0 pending, 1 open,
    /// 2 closed, anything else an error.
    pub fn identify(code: i32) -> (s: ConnectionStatus)
        ensures
            s == if code == 0 {
                ConnectionStatus::Pending
            } else if code == 1 {
                ConnectionStatus::Open
            } else if code == 2 {
                ConnectionStatus::Closed
            } else {
                ConnectionStatus::Error
            },
    {
        match code {
            0 => ConnectionStatus::Pending,
            1 => ConnectionStatus::Open,
            2 => ConnectionStatus::Closed,
            _ => ConnectionStatus::Error,
        }
    }

    /// The result of an operation given the connection's status: `pending_value` while the
    /// connection is pending, `ok_value` once it is open, and an error once it is closed or
    /// has failed.
    pub fn result<T>(&self, pending_value: T, ok_value: T) -> (r: Result<T, Error>)
        ensures
            match self {
                ConnectionStatus::Pending => r == Ok::<T, Error>(pending_value),
                ConnectionStatus::Open => r == Ok::<T, Error>(ok_value),
                ConnectionStatus::Closed => r matches Err(Error::ConnectionClosed),
                ConnectionStatus::Error => r matches Err(Error::ConnectionError(m))
                    && m@ == "Please see the browser console for error message"@,
            },
    {
        proof {
            reveal_strlit("Please see the browser console for error message");
        }
        match self {
            ConnectionStatus::Pending => Ok(pending_value),
            ConnectionStatus::Open => Ok(ok_value),
            ConnectionStatus::Closed => Err(Error::ConnectionClosed),
            ConnectionStatus::Error => Err(Error::ConnectionError(String::from_str(
                "Please see the browser console for error message",
            ))),
        }
    }
}

} // verus!
