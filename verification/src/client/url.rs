//! Which server to connect to.

use vstd::prelude::*;
use vstd::string::*;

verus! {

/// Where a page was loaded from, as the browser tells it.
pub struct PageLocation {
    /// The scheme, with its colon.
    pub protocol: String,
    pub hostname: String,
    /// The query, with its question mark.
    pub search: String,
}

/// The server that is used where nothing else is asked for.
pub open spec fn default_url() -> Seq<char> {
    "ws://127.0.0.1:8080/ws"@
}

/// The server of a native client: the one that the environment names, or the
/// default.
pub fn native_url(environment: Option<String>) -> (url: String)
    ensures
        url@ == match environment {
            Some(named) => named@,
            None => default_url(),
        },
{
    match environment {
        Some(named) => named,
        None => "ws://127.0.0.1:8080/ws".to_owned(),
    }
}

impl PageLocation {
    /// Whether the parameter `server` of a query starts at an index: at the
    /// start of the query or after an ampersand, followed by its sign of
    /// equality.
    pub open spec fn names_server(search: Seq<char>, i: int) -> bool {
        &&& 1 <= i <= search.len() - 7
        &&& (i == 1 && search[0] == '?') || search[i - 1] == '&'
        &&& search.subrange(i, i + 7) == seq!['s', 'e', 'r', 'v', 'e', 'r', '=']
    }

    /// Where a value that starts at an index ends: at the next ampersand, or
    /// at the end of the query.
    pub open spec fn value_end(search: Seq<char>, start: int) -> int
        decreases search.len() - start,
    {
        if start >= search.len() || search[start] == '&' {
            start
        } else {
            Self::value_end(search, start + 1)
        }
    }

    /// The value of the first parameter `server` that starts at or after an
    /// index.
    pub open spec fn server_from(search: Seq<char>, i: int) -> Option<Seq<char>>
        decreases search.len() - i,
    {
        if i >= search.len() {
            None
        } else if Self::names_server(search, i) {
            Some(search.subrange(i + 7, Self::value_end(search, i + 7)))
        } else {
            Self::server_from(search, i + 1)
        }
    }

    /// The server that a query asks for.
    pub open spec fn asked_for(search: Seq<char>) -> Option<Seq<char>> {
        Self::server_from(search, 1)
    }

    /// The server of a client in a browser: the one that the query asks for;
    /// else the default where the page was loaded from this machine, and port
    /// 4001 of the host that it was loaded from otherwise, encrypted as the
    /// page was.
    pub open spec fn url(self) -> Seq<char> {
        match Self::asked_for(self.search@) {
            Some(server) => server,
            None => if self.hostname@ == "127.0.0.1"@ || self.hostname@ == "localhost"@ {
                default_url()
            } else {
                (if self.protocol@ == "https:"@ {
                    "wss://"@
                } else {
                    "ws://"@
                }) + self.hostname@ + ":4001/ws"@
            },
        }
    }

    fn is_named_at(search: &str, i: usize, len: usize) -> (r: bool)
        requires
            1 <= i < len,
            len == search@.len(),
        ensures
            r == Self::names_server(search@, i as int),
    {
        if len < 7 || i > len - 7 {
            return false;
        }
        let previous: char = search.get_char(i - 1);
        if !((i == 1 && previous == '?') || previous == '&') {
            return false;
        }
        let named: bool = search.get_char(i) == 's' && search.get_char(i + 1) == 'e'
            && search.get_char(i + 2) == 'r' && search.get_char(i + 3) == 'v' && search.get_char(
            i + 4,
        ) == 'e' && search.get_char(i + 5) == 'r' && search.get_char(i + 6) == '=';
        proof {
            let found = search@.subrange(i as int, i + 7);
            let wanted = seq!['s', 'e', 'r', 'v', 'e', 'r', '='];
            if named {
                assert(found =~= wanted);
            } else if found == wanted {
                assert(found[0] == wanted[0] && found[1] == wanted[1] && found[2] == wanted[2]
                    && found[3] == wanted[3] && found[4] == wanted[4] && found[5] == wanted[5]
                    && found[6] == wanted[6]);
            }
        }
        named
    }

    /// The server that a query asks for.
    pub fn find_server(search: &str) -> (server: Option<String>)
        ensures
            match server {
                Some(server) => Self::asked_for(search@) == Some(server@),
                None => Self::asked_for(search@) is None,
            },
    {
        let len: usize = search.unicode_len();
        let mut i: usize = 1;
        while i < len
            invariant
                1 <= i,
                len == search@.len(),
                Self::asked_for(search@) == Self::server_from(search@, i as int),
            decreases len - i,
        {
            if Self::is_named_at(search, i, len) {
                let start: usize = i + 7;
                let mut end: usize = start;
                while end < len && search.get_char(end) != '&'
                    invariant
                        start <= end <= len,
                        len == search@.len(),
                        Self::value_end(search@, start as int) == Self::value_end(
                            search@,
                            end as int,
                        ),
                    decreases len - end,
                {
                    end = end + 1;
                }
                return Some(search.substring_char(start, end).to_owned());
            }
            i = i + 1;
        }
        None
    }

    /// The server of a client in a browser.
    pub fn browser_url(&self) -> (url: String)
        ensures
            url@ == self.url(),
    {
        match Self::find_server(self.search.as_str()) {
            Some(server) => server,
            None => {
                if self.hostname == "127.0.0.1".to_owned() || self.hostname
                    == "localhost".to_owned() {
                    return native_url(None);
                }
                let mut url: String = if self.protocol == "https:".to_owned() {
                    "wss://".to_owned()
                } else {
                    "ws://".to_owned()
                };
                url.append(self.hostname.as_str());
                url.append(":4001/ws");
                url
            },
        }
    }

    proof fn value_end_without_ampersand(search: Seq<char>, start: int)
        requires
            0 <= start <= search.len(),
            forall|i: int| start <= i < search.len() ==> #[trigger] search[i] != '&',
        ensures
            Self::value_end(search, start) == search.len(),
        decreases search.len() - start,
    {
        if start < search.len() {
            Self::value_end_without_ampersand(search, start + 1);
        }
    }

    /// A page that is loaded with `?server=` and an address connects there.
    pub proof fn the_query_decides(self, server: Seq<char>)
        requires
            self.search@ == "?server="@ + server,
            !server.contains('&'),
        ensures
            self.url() == server,
    {
        reveal_strlit("?server=");
        let search = self.search@;
        assert(search.subrange(1, 8) =~= seq!['s', 'e', 'r', 'v', 'e', 'r', '=']);
        assert(Self::names_server(search, 1));
        assert forall|i: int| 8 <= i < search.len() implies #[trigger] search[i] != '&' by {
            assert(search[i] == server[i - 8]);
            assert(server.contains(server[i - 8]));
        }
        Self::value_end_without_ampersand(search, 8);
        assert(search.subrange(8, search.len() as int) =~= server);
    }

    /// Whether a parameter called `server` stands at an index of a query.
    pub open spec fn server_at(search: Seq<char>, i: int) -> bool {
        &&& 1 <= i
        &&& i + 7 <= search.len()
        &&& search[i - 1] == '&' || (search[i - 1] == '?' && i == 1)
        &&& search[i] == 's' && search[i + 1] == 'e' && search[i + 2] == 'r' && search[i + 3] == 'v'
            && search[i + 4] == 'e' && search[i + 5] == 'r' && search[i + 6] == '='
    }

    proof fn names_are_spelled(search: Seq<char>, i: int)
        ensures
            Self::names_server(search, i) <==> Self::server_at(search, i),
    {
        let wanted = seq!['s', 'e', 'r', 'v', 'e', 'r', '='];
        if 1 <= i && i + 7 <= search.len() {
            let found = search.subrange(i, i + 7);
            assert(found[0] == search[i] && found[1] == search[i + 1] && found[2] == search[i + 2]
                && found[3] == search[i + 3] && found[4] == search[i + 4] && found[5]
                == search[i + 5] && found[6] == search[i + 6]);
            if Self::server_at(search, i) {
                assert(found =~= wanted);
            }
            if found == wanted {
                assert(wanted[0] == 's' && wanted[1] == 'e' && wanted[2] == 'r' && wanted[3] == 'v'
                    && wanted[4] == 'e' && wanted[5] == 'r' && wanted[6] == '=');
            }
        }
    }

    proof fn values_end_at_ampersands(search: Seq<char>, start: int)
        requires
            0 <= start <= search.len(),
        ensures
            start <= Self::value_end(search, start) <= search.len(),
            Self::value_end(search, start) < search.len() ==> search[Self::value_end(search, start)]
                == '&',
            forall|m: int|
                start <= m < Self::value_end(search, start) ==> #[trigger] search[m] != '&',
        decreases search.len() - start,
    {
        if start < search.len() && search[start] != '&' {
            Self::values_end_at_ampersands(search, start + 1);
        }
    }

    proof fn the_first_from(search: Seq<char>, i: int)
        requires
            1 <= i,
        ensures
            match Self::server_from(search, i) {
                Some(value) => exists|n: int|
                    {
                        &&& i <= n
                        &&& #[trigger] Self::server_at(search, n)
                        &&& forall|m: int| i <= m < n ==> !#[trigger] Self::server_at(search, m)
                        &&& n + 7 + value.len() <= search.len()
                        &&& value == search.subrange(n + 7, n + 7 + value.len())
                        &&& !value.contains('&')
                        &&& n + 7 + value.len() < search.len() ==> search[n + 7 + value.len()]
                            == '&'
                    },
                None => forall|m: int| i <= m ==> !#[trigger] Self::server_at(search, m),
            },
        decreases search.len() - i,
    {
        if i < search.len() {
            Self::names_are_spelled(search, i);
            if Self::names_server(search, i) {
                Self::values_end_at_ampersands(search, i + 7);
                let end = Self::value_end(search, i + 7);
                let value = search.subrange(i + 7, end);
                assert(value.len() == end - (i + 7));
                assert(!value.contains('&')) by {
                    if value.contains('&') {
                        let m = choose|m: int| 0 <= m < value.len() && value[m] == '&';
                        assert(search[i + 7 + m] == '&');
                    }
                }
                assert(Self::server_at(search, i));
            } else {
                Self::the_first_from(search, i + 1);
                match Self::server_from(search, i + 1) {
                    Some(value) => {
                        let n = choose|n: int|
                            {
                                &&& i + 1 <= n
                                &&& #[trigger] Self::server_at(search, n)
                                &&& forall|m: int|
                                    i + 1 <= m < n ==> !#[trigger] Self::server_at(search, m)
                                &&& n + 7 + value.len() <= search.len()
                                &&& value == search.subrange(n + 7, n + 7 + value.len())
                                &&& !value.contains('&')
                                &&& n + 7 + value.len() < search.len() ==> search[n + 7
                                    + value.len()] == '&'
                            };
                        assert(Self::server_at(search, n));
                        assert forall|m: int| i <= m < n implies !#[trigger] Self::server_at(
                            search,
                            m,
                        ) by {
                            if m > i {
                                assert(i + 1 <= m);
                            }
                        }
                    },
                    None => {},
                }
            }
        }
    }

    /// The server asked for is the value of the first parameter called
    /// `server`, up to the next ampersand or the end; none is asked for exactly
    /// where there is no such parameter.
    pub proof fn the_first_parameter_counts(search: Seq<char>)
        ensures
            match Self::asked_for(search) {
                Some(value) => exists|n: int|
                    {
                        &&& #[trigger] Self::server_at(search, n)
                        &&& forall|m: int| m < n ==> !#[trigger] Self::server_at(search, m)
                        &&& n + 7 + value.len() <= search.len()
                        &&& value == search.subrange(n + 7, n + 7 + value.len())
                        &&& !value.contains('&')
                        &&& n + 7 + value.len() < search.len() ==> search[n + 7 + value.len()]
                            == '&'
                    },
                None => forall|m: int| !#[trigger] Self::server_at(search, m),
            },
    {
        Self::the_first_from(search, 1);
        if let Some(value) = Self::asked_for(search) {
            let n = choose|n: int|
                {
                    &&& 1 <= n
                    &&& #[trigger] Self::server_at(search, n)
                    &&& forall|m: int| 1 <= m < n ==> !#[trigger] Self::server_at(search, m)
                    &&& n + 7 + value.len() <= search.len()
                    &&& value == search.subrange(n + 7, n + 7 + value.len())
                    &&& !value.contains('&')
                    &&& n + 7 + value.len() < search.len() ==> search[n + 7 + value.len()] == '&'
                };
            assert(Self::server_at(search, n));
        }
    }

    /// Where no server is asked for, a page of this machine connects to this
    /// machine, and any other to port 4001 of its own host, encrypted exactly
    /// where the page was.
    pub proof fn pages_connect_home(self)
        requires
            forall|m: int| !#[trigger] Self::server_at(self.search@, m),
        ensures
            self.hostname@ == "127.0.0.1"@ || self.hostname@ == "localhost"@ ==> self.url()
                == "ws://127.0.0.1:8080/ws"@,
            self.hostname@ != "127.0.0.1"@ && self.hostname@ != "localhost"@ && self.protocol@
                == "https:"@ ==> self.url() == "wss://"@ + self.hostname@ + ":4001/ws"@,
            self.hostname@ != "127.0.0.1"@ && self.hostname@ != "localhost"@ && self.protocol@
                != "https:"@ ==> self.url() == "ws://"@ + self.hostname@ + ":4001/ws"@,
    {
        Self::the_first_parameter_counts(self.search@);
    }

    /// A server that is asked for is connected to, whatever the page.
    pub proof fn the_asked_for_is_connected_to(self, server: Seq<char>)
        requires
            Self::asked_for(self.search@) == Some(server),
        ensures
            self.url() == server,
    {
    }
}

} // verus!
