//! HTTP/1.x framing for the proxy core: the request-line codec, the
//! case-insensitive header-name comparison, the CONNECT decision of the
//! per-connection server, and the status line it answers with.

use vstd::prelude::*;

verus! {

/// The byte a lower-case comparison maps `b` to: ASCII letters fold to
/// lower case, everything else stands.
pub open spec fn spec_lower(b: u8) -> u8 {
    if 'A' as u8 <= b <= 'Z' as u8 {
        (b + 32) as u8
    } else {
        b
    }
}

/// Compares two header names, ASCII case-insensitively.
#[verifier::loop_isolation(false)]
pub fn header_name_eq(a: &[u8], b: &[u8]) -> (r: bool)
    ensures
        r == (a@.len() == b@.len() && (forall|i: int|
            0 <= i < a@.len() ==> spec_lower(#[trigger] a@[i]) == spec_lower(b@[i]))),
{
    if a.len() != b.len() {
        return false;
    }
    let mut i: usize = 0;
    while i < a.len()
        invariant
            i <= a@.len(),
            a@.len() == b@.len(),
            forall|j: int| 0 <= j < i ==> spec_lower(#[trigger] a@[j]) == spec_lower(b@[j]),
        decreases a@.len() - i,
    {
        let x = if 'A' as u8 <= a[i] && a[i] <= 'Z' as u8 {
            a[i] + 32
        } else {
            a[i]
        };
        let y = if 'A' as u8 <= b[i] && b[i] <= 'Z' as u8 {
            b[i] + 32
        } else {
            b[i]
        };
        if x != y {
            return false;
        }
        i = i + 1;
    }
    true
}

/// The bytes of the CONNECT method token.
pub open spec fn spec_connect_method() -> Seq<u8> {
    seq![
        'C' as u8,
        'O' as u8,
        'N' as u8,
        'N' as u8,
        'E' as u8,
        'C' as u8,
        'T' as u8,
    ]
}

/// What the per-connection HTTP server does with a request.
#[derive(Clone, Copy, Debug, PartialEq, Eq, Structural)]
pub enum RequestAction {
    /// A CONNECT request: answer that the protocol switches and hand the
    /// upgraded stream to the TLS path.
    Upgrade,
    /// Any other method: forward the request upstream and surface the
    /// flow.
    Forward,
}

/// Decides what to do with a request: CONNECT upgrades, everything else
/// is forwarded.
#[verifier::loop_isolation(false)]
pub fn classify_request(method: &[u8]) -> (a: RequestAction)
    ensures
        a == RequestAction::Upgrade <==> method@ == spec_connect_method(),
{
    if method.len() != 7 {
        proof {
            assert(method@ != spec_connect_method());
        }
        return RequestAction::Forward;
    }
    if method[0] == 'C' as u8 && method[1] == 'O' as u8 && method[2] == 'N' as u8 && method[3]
        == 'N' as u8 && method[4] == 'E' as u8 && method[5] == 'C' as u8 && method[6]
        == 'T' as u8 {
        proof {
            assert(method@ =~= spec_connect_method());
        }
        RequestAction::Upgrade
    } else {
        proof {
            assert(method@ != spec_connect_method());
        }
        RequestAction::Forward
    }
}

/// A parsed request line: method, target and version.
#[derive(Clone, Debug)]
pub struct RequestLine {
    pub method: Vec<u8>,
    pub target: Vec<u8>,
    pub version: Vec<u8>,
}

/// An HTTP framing violation.
#[derive(Clone, Copy, Debug, PartialEq, Eq, Structural)]
pub enum HttpError {
    /// The request line does not have three space-separated parts.
    MalformedRequestLine,
}

/// Whether a line decomposes as `method SP target SP version`: a first
/// space after a non-empty method, a second space after a non-empty
/// target, and a non-empty version after it.
pub open spec fn spec_request_line_shaped(line: Seq<u8>) -> bool {
    exists|i: int, j: int|
        #![trigger line[i], line[j]]
        {
            &&& 0 < i
            &&& i + 1 < j < line.len() - 1
            &&& line[i] == ' ' as u8
            &&& line[j] == ' ' as u8
            &&& forall|k: int| 0 <= k < j && k != i ==> line[k] != ' ' as u8
        }
}

/// Splits a request line `method SP target SP version` at its two
/// separating spaces, exactly when the line has that shape. The three
/// parts are non-empty; the method and the target hold no space; the
/// version is everything past the second space.
#[verifier::loop_isolation(false)]
#[verifier::rlimit(50)]
pub fn parse_request_line(line: &[u8]) -> (r: Result<RequestLine, HttpError>)
    ensures
        match r {
            Ok(rl) => exists|i: int, j: int|
                #![trigger line@[i], line@[j]]
                {
                    &&& 0 < i
                    &&& i + 1 < j < line@.len() - 1
                    &&& line@[i] == ' ' as u8
                    &&& line@[j] == ' ' as u8
                    &&& forall|k: int| 0 <= k < j && k != i ==> line@[k] != ' ' as u8
                    &&& rl.method@ == line@.subrange(0, i)
                    &&& rl.target@ == line@.subrange(i + 1, j)
                    &&& rl.version@ == line@.subrange(j + 1, line@.len() as int)
                },
            Err(e) => {
                &&& e == HttpError::MalformedRequestLine
                &&& !spec_request_line_shaped(line@)
            },
        },
{
    let n = line.len();
    let mut i: usize = 0;
    while i < n && line[i] != ' ' as u8
        invariant
            i <= n,
            forall|k: int| 0 <= k < i ==> line@[k] != ' ' as u8,
        decreases n - i,
    {
        i = i + 1;
    }
    if i == 0 || i >= n {
        proof {
            if spec_request_line_shaped(line@) {
                let (i2, j2) = choose|i2: int, j2: int|
                    #![trigger line@[i2], line@[j2]]
                    {
                        &&& 0 < i2
                        &&& i2 + 1 < j2 < line@.len() - 1
                        &&& line@[i2] == ' ' as u8
                        &&& line@[j2] == ' ' as u8
                        &&& forall|k: int| 0 <= k < j2 && k != i2 ==> line@[k] != ' ' as u8
                    };
                if i == 0 {
                    // The line starts with a space; the shape forbids one
                    // anywhere but at the method separator, which is not
                    // position zero.
                    assert(line@[0] != ' ' as u8);
                } else {
                    // The line holds no space at all, but the shape names
                    // one.
                    assert(line@[i2] != ' ' as u8);
                }
                assert(false);
            }
        }
        return Err(HttpError::MalformedRequestLine);
    }
    let mut j: usize = i + 1;
    while j < n && line[j] != ' ' as u8
        invariant
            i + 1 <= j <= n,
            forall|k: int| i < k < j ==> line@[k] != ' ' as u8,
        decreases n - j,
    {
        j = j + 1;
    }
    if j == i + 1 || j >= n - 1 {
        proof {
            if spec_request_line_shaped(line@) {
                let (i2, j2) = choose|i2: int, j2: int|
                    #![trigger line@[i2], line@[j2]]
                    {
                        &&& 0 < i2
                        &&& i2 + 1 < j2 < line@.len() - 1
                        &&& line@[i2] == ' ' as u8
                        &&& line@[j2] == ' ' as u8
                        &&& forall|k: int| 0 <= k < j2 && k != i2 ==> line@[k] != ' ' as u8
                    };
                // The shape's first space is the line's first space.
                if i2 < i {
                    assert(line@[i2] != ' ' as u8);
                } else if i < i2 {
                    assert(line@[i as int] != ' ' as u8);
                }
                assert(i2 == i);
                // The shape's second space is the first space after it.
                if j2 < j {
                    assert(line@[j2] != ' ' as u8);
                } else if (j as int) < j2 && j < n {
                    assert(line@[j as int] != ' ' as u8);
                }
                assert(false);
            }
        }
        return Err(HttpError::MalformedRequestLine);
    }
    let method = copy_range(line, 0, i);
    let target = copy_range(line, i + 1, j);
    let version = copy_range(line, j + 1, n);
    proof {
        assert(0 < i as int);
        assert((i as int) < j as int);
        assert((j as int) < line@.len() - 1);
        assert(line@[i as int] == ' ' as u8);
        assert(line@[j as int] == ' ' as u8);
    }
    Ok(RequestLine { method, target, version })
}

/// Copies `bytes[from..to]` into an owned buffer.
#[verifier::loop_isolation(false)]
fn copy_range(bytes: &[u8], from: usize, to: usize) -> (r: Vec<u8>)
    requires
        from <= to <= bytes@.len(),
    ensures
        r@ == bytes@.subrange(from as int, to as int),
{
    let mut out: Vec<u8> = Vec::new();
    let mut i: usize = from;
    while i < to
        invariant
            from <= i <= to,
            out@ == bytes@.subrange(from as int, i as int),
        decreases to - i,
    {
        out.push(bytes[i]);
        i = i + 1;
        proof {
            assert(out@ =~= bytes@.subrange(from as int, i as int));
        }
    }
    out
}

/// The bytes of a `HTTP/1.1` status line with the given code and reason.
pub open spec fn spec_status_line(status: u16, reason: Seq<u8>) -> Seq<u8> {
    seq![
        'H' as u8,
        'T' as u8,
        'T' as u8,
        'P' as u8,
        '/' as u8,
        '1' as u8,
        '.' as u8,
        '1' as u8,
        ' ' as u8,
        (status / 100 + '0' as u8) as u8,
        ((status / 10) % 10 + '0' as u8) as u8,
        (status % 10 + '0' as u8) as u8,
        ' ' as u8,
    ] + reason + seq!['\r' as u8, '\n' as u8]
}

/// Encodes a status line: the protocol version, the three-digit code, the
/// reason phrase and the line end.
#[verifier::loop_isolation(false)]
pub fn encode_status_line(status: u16, reason: &[u8]) -> (r: Vec<u8>)
    requires
        100 <= status <= 599,
    ensures
        r@ == spec_status_line(status, reason@),
{
    let mut out: Vec<u8> = Vec::new();
    out.push('H' as u8);
    out.push('T' as u8);
    out.push('T' as u8);
    out.push('P' as u8);
    out.push('/' as u8);
    out.push('1' as u8);
    out.push('.' as u8);
    out.push('1' as u8);
    out.push(' ' as u8);
    out.push((status / 100) as u8 + '0' as u8);
    out.push(((status / 10) % 10) as u8 + '0' as u8);
    out.push((status % 10) as u8 + '0' as u8);
    out.push(' ' as u8);
    let ghost head = out@;
    let mut i: usize = 0;
    while i < reason.len()
        invariant
            i <= reason@.len(),
            out@ == head + reason@.subrange(0, i as int),
        decreases reason@.len() - i,
    {
        out.push(reason[i]);
        i = i + 1;
        proof {
            assert(out@ =~= head + reason@.subrange(0, i as int));
        }
    }
    out.push('\r' as u8);
    out.push('\n' as u8);
    proof {
        assert(out@ =~= spec_status_line(status, reason@));
    }
    out
}

} // verus!
