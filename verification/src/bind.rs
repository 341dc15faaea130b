use vstd::prelude::*;

verus! {

/// A host needs square brackets in a `host:port` address when it is an IPv6
/// literal (holds a `:`) that is not bracketed yet.
pub open spec fn host_needs_brackets(host: Seq<char>) -> bool {
    host.contains(':') && !(host.len() > 0 && host[0] == '[')
}

/// The host part of the server's bind address.
pub open spec fn bind_host_spec(host: Seq<char>) -> Seq<char> {
    if host_needs_brackets(host) {
        seq!['['] + host + seq![']']
    } else {
        host
    }
}

/// The host as it goes before `:port` in the bind address: an IPv6 literal
/// such as `::` becomes `[::]`; anything else is kept as it is.
pub fn bind_host(host: &str) -> (out: String)
    ensures
        out@ == bind_host_spec(host@),
{
    let n = host.unicode_len();
    let mut has_colon = false;
    let mut i: usize = 0;
    while i < n
        invariant
            0 <= i <= n,
            n == host@.len(),
            has_colon == exists|j: int| 0 <= j < i && host@[j] == ':',
        decreases n - i,
    {
        if host.get_char(i) == ':' {
            has_colon = true;
        }
        i = i + 1;
    }
    let bracketed = n > 0 && host.get_char(0) == '[';
    if has_colon && !bracketed {
        let mut out = String::from_str("[");
        out.append(host);
        out.append("]");
        proof {
            reveal_strlit("[");
            reveal_strlit("]");
            assert(host@.contains(':'));
        }
        assert(out@ =~= seq!['['] + host@ + seq![']']);
        out
    } else {
        proof {
            if host@.contains(':') {
                let j = choose|j: int| 0 <= j < host@.len() && host@[j] == ':';
                assert(has_colon);
            }
        }
        String::from_str(host)
    }
}

/// The bind host in terms of its characters: a host with a `:` somewhere
/// that does not start with `[` is wrapped in `[` and `]`; every other host
/// is kept as it is. Either way the host's characters come through unchanged.
pub proof fn law_bind_host_by_inputs(host: Seq<char>)
    ensures
        ((exists|j: int| 0 <= j < host.len() && #[trigger] host[j] == ':') && !(host.len() > 0
            && host[0] == '[')) ==> bind_host_spec(host) == seq!['['] + host + seq![']'],
        (!(exists|j: int| 0 <= j < host.len() && #[trigger] host[j] == ':') || (host.len() > 0
            && host[0] == '[')) ==> bind_host_spec(host) == host,
        bind_host_spec(host).len() == host.len() || bind_host_spec(host).subrange(
            1,
            host.len() + 1int,
        ) == host,
{
    if exists|j: int| 0 <= j < host.len() && #[trigger] host[j] == ':' {
        let j = choose|j: int| 0 <= j < host.len() && #[trigger] host[j] == ':';
        assert(host.contains(':'));
    }
    if host_needs_brackets(host) {
        assert((seq!['['] + host + seq![']']).subrange(1, host.len() + 1int) =~= host);
    }
}

} // verus!
