//! The cluster handle: the node list, random endpoint selection, and
//! the constructors that reject an empty configuration.

use vstd::prelude::*;
use vstd::string::*;
use crate::backend::{DefaultHTTPBackend, HTTPBackend};
use crate::error::CrateDBConfigurationError;

verus! {

/// An empty parameter marker for queries that carry no arguments.
pub struct Nothing {}

/// The two endpoint families a node serves: SQL statements and blobs.
pub enum EndpointType {
    SQL,
    Blob,
}

/// The path suffix an endpoint type appends to a node's base URL.
pub open spec fn endpoint_suffix(endpoint_type: EndpointType) -> Seq<char> {
    match endpoint_type {
        EndpointType::SQL => "_sql"@,
        EndpointType::Blob => "_blobs"@,
    }
}

/// A database cluster: an ordered list of node base URLs and the
/// transport used to reach them.
pub struct DBCluster<T> {
    /// The base URLs of the available nodes.
    pub nodes: Vec<String>,
    /// The transport with which the nodes are reached.
    pub backend: T,
}

/// Relies on `rand::random`, which draws a value from the thread's
/// generator. Nothing can be promised of the value drawn.
pub assume_specification<T>[ rand::random::<T> ]() -> (r: T)
    where
        rand::distributions::Standard: rand::distributions::Distribution<T>,
;

/// Endpoint selection: one of the cluster's nodes, chosen at random,
/// with the suffix of the requested endpoint family appended
/// verbatim. A base URL therefore ends with the slash that separates
/// it from the suffix, e.g. `http://localhost:4200/`. `None` exactly
/// when the node list is empty.
pub trait Loadbalancing {
    /// The models of the node base URLs.
    spec fn node_urls(&self) -> Seq<Seq<char>>;

    /// A URL of one node, with the endpoint suffix appended.
    fn get_endpoint(&self, endpoint_type: EndpointType) -> (r: Option<String>)
        ensures
            r is Some <==> self.node_urls().len() > 0,
            match r {
                Some(u) => exists|k: int|
                    0 <= k < self.node_urls().len() && u@ == #[trigger] self.node_urls()[k]
                        + endpoint_suffix(endpoint_type),
                None => true,
            },
    ;
}

impl<T> Loadbalancing for DBCluster<T> {
    open spec fn node_urls(&self) -> Seq<Seq<char>> {
        self.nodes.deep_view()
    }

    fn get_endpoint(&self, endpoint_type: EndpointType) -> (r: Option<String>) {
        if self.nodes.len() > 0 {
            let raw: usize = rand::random::<usize>();
            let idx = raw % self.nodes.len();
            let mut url = self.nodes[idx].clone();
            match endpoint_type {
                EndpointType::SQL => url.append("_sql"),
                EndpointType::Blob => url.append("_blobs"),
            }
            proof {
                assert(self.node_urls()[idx as int] == self.nodes@[idx as int]@);
                assert(url@ == self.node_urls()[idx as int] + endpoint_suffix(endpoint_type));
            }
            Some(url)
        } else {
            None
        }
    }
}

/// The index of the first comma at or after `i`, or the length when
/// there is none.
pub open spec fn comma_pos(s: Seq<char>, i: int) -> int
    decreases s.len() - i,
{
    if i < 0 || i >= s.len() {
        i
    } else if s[i] == ',' {
        i
    } else {
        comma_pos(s, i + 1)
    }
}

/// The segments of a string between its commas, in order; a string
/// without commas is one segment, and an empty string one empty
/// segment.
pub open spec fn split_commas(s: Seq<char>) -> Seq<Seq<char>>
    decreases s.len(),
{
    let p = comma_pos(s, 0);
    if p < 0 || p >= s.len() {
        seq![s]
    } else {
        seq![s.take(p)] + split_commas(s.skip(p + 1))
    }
}

/// A stretch without commas, ended by a comma or the end of the
/// string, is exactly what `comma_pos` finds.
proof fn lemma_comma_pos(s: Seq<char>, i: int, j: int)
    requires
        0 <= i <= j <= s.len(),
        forall|k: int| i <= k < j ==> s[k] != ',',
        j == s.len() || s[j] == ',',
    ensures
        comma_pos(s, i) == j,
    decreases j - i,
{
    if i < j {
        lemma_comma_pos(s, i + 1, j);
    }
}

fn comma_find(s: &Vec<char>, start: usize) -> (p: usize)
    requires
        start <= s@.len(),
    ensures
        start <= p <= s@.len(),
        forall|k: int| start <= k < p ==> s@[k] != ',',
        p < s@.len() ==> s@[p as int] == ',',
{
    let n = s.len();
    let mut p = start;
    while p < n && s[p] != ','
        invariant
            start <= p <= n,
            n == s@.len(),
            forall|k: int| start <= k < p ==> s@[k] != ',',
        decreases n - p,
    {
        p = p + 1;
    }
    p
}

impl DBCluster<DefaultHTTPBackend> {
    /// A cluster over the given node URLs, reached directly over
    /// HTTP. An empty node list is a configuration error and builds
    /// nothing.
    pub fn new(nodes: Vec<String>) -> (r: Result<
        DBCluster<DefaultHTTPBackend>,
        CrateDBConfigurationError,
    >)
        ensures
            r is Err <==> nodes@.len() == 0,
            match r {
                Ok(c) => c.nodes == nodes && !c.backend.client_factory.use_proxy,
                Err(e) => e.description@ == "Please provide URLs to connect to"@,
            },
    {
        if nodes.len() < 1 {
            Err(
                CrateDBConfigurationError {
                    description: String::from_str("Please provide URLs to connect to"),
                },
            )
        } else {
            Ok(DBCluster { nodes, backend: HTTPBackend::new() })
        }
    }

    /// A cluster over the given node URLs, reached through the given
    /// proxy. An empty node list is a configuration error.
    pub fn with_proxy(nodes: Vec<String>, host: &str, port: u16) -> (r: Result<
        DBCluster<DefaultHTTPBackend>,
        CrateDBConfigurationError,
    >)
        ensures
            r is Err <==> nodes@.len() == 0,
            match r {
                Ok(c) => c.nodes == nodes && c.backend.client_factory.use_proxy
                    && c.backend.client_factory.proxy_host@ == host@
                    && c.backend.client_factory.proxy_port == port,
                Err(e) => e.description@ == "Please provide URLs to connect to"@,
            },
    {
        if nodes.len() < 1 {
            Err(
                CrateDBConfigurationError {
                    description: String::from_str("Please provide URLs to connect to"),
                },
            )
        } else {
            Ok(DBCluster { nodes, backend: HTTPBackend::with_proxy(host, port) })
        }
    }

    /// A cluster from a comma-separated list of node URLs, reached
    /// directly over HTTP. Splitting always yields at least one
    /// segment, so this constructor always succeeds.
    pub fn from_string(node_str: &str) -> (r: Result<
        DBCluster<DefaultHTTPBackend>,
        CrateDBConfigurationError,
    >)
        ensures
            match r {
                Ok(c) => c.nodes.deep_view() == split_commas(node_str@)
                    && !c.backend.client_factory.use_proxy,
                Err(_) => false,
            },
    {
        let cs = crate::common::str_to_chars(node_str);
        let n = cs.len();
        let mut nodes: Vec<String> = Vec::new();
        let mut start: usize = 0;
        let mut done = false;
        proof {
            assert(cs@.skip(0) =~= cs@);
            assert(Seq::<Seq<char>>::empty() + split_commas(cs@) =~= split_commas(cs@));
        }
        while !done
            invariant
                start <= n,
                n == cs@.len(),
                cs@ == node_str@,
                split_commas(cs@) == nodes.deep_view() + (if !done {
                    split_commas(cs@.skip(start as int))
                } else {
                    Seq::<Seq<char>>::empty()
                }),
            decreases n - start + (if done {
                0int
            } else {
                1
            }),
        {
            let p = comma_find(&cs, start);
            let seg = crate::common::chars_range_to_string(&cs, start, p);
            proof {
                let tail = cs@.skip(start as int);
                assert forall|k: int| 0 <= k < p - start implies tail[k] != ',' by {
                    assert(tail[k] == cs@[start + k]);
                }
                if (p as int) < n {
                    assert(tail[p - start] == cs@[p as int]);
                }
                lemma_comma_pos(tail, 0, p - start);
                assert(tail.take(p - start) =~= cs@.subrange(start as int, p as int));
                if (p as int) < n {
                    assert(tail.skip(p - start + 1) =~= cs@.skip(p + 1));
                } else {
                    assert(tail.take(p - start) =~= tail);
                }
            }
            let ghost nodes0 = nodes.deep_view();
            nodes.push(seg);
            proof {
                assert(nodes.deep_view() =~= nodes0 + seq![seg@]);
            }
            if p >= n {
                done = true;
                proof {
                    assert(split_commas(cs@) =~= nodes.deep_view());
                }
            } else {
                start = p + 1;
                proof {
                    assert(nodes0 + seq![seg@] + split_commas(cs@.skip(start as int))
                        =~= nodes.deep_view() + split_commas(cs@.skip(start as int)));
                }
            }
        }
        Ok(DBCluster { nodes, backend: HTTPBackend::new() })
    }
}

impl<T> DBCluster<T> {
    /// A cluster over the given node URLs with the given transport.
    pub fn with_custom_backend(nodes: Vec<String>, backend: T) -> (r: DBCluster<T>)
        ensures
            r.nodes == nodes,
            r.backend == backend,
    {
        DBCluster { nodes, backend }
    }
}

} // verus!
