//! The wire form of identifiers: `"namespace:name"`, with exactly one colon
//! and something on each side of it.

use vstd::prelude::*;
use vstd::string::{StrSliceExecFns, StringExecFns};
use crate::{id_view, Identifier, IdView, RawIdentier};
use crate::text::{chars_of, find_char};

verus! {

/// The wire form of an identifier.
pub open spec fn joined(id: IdView) -> Seq<char> {
    id.0 + seq![':'] + id.1
}

/// Whether an identifier can go on the wire: both parts are non-empty and
/// hold no colon.
pub open spec fn valid_parts(id: IdView) -> bool {
    &&& id.0.len() > 0
    &&& id.1.len() > 0
    &&& !id.0.contains(':')
    &&& !id.1.contains(':')
}

/// A text is the wire form of at most one identifier.
pub proof fn lemma_joined_injective(a: IdView, b: IdView)
    requires
        valid_parts(a),
        valid_parts(b),
        joined(a) == joined(b),
    ensures
        a == b,
{
    let s = joined(a);
    let p = a.0.len() as int;
    let q = b.0.len() as int;
    assert(joined(a)[p] == ':');
    assert(joined(b)[q] == ':');
    if p < q {
        assert(joined(b)[p] == b.0[p]);
        assert(b.0.contains(':'));
    }
    if q < p {
        assert(joined(a)[q] == a.0[q]);
        assert(a.0.contains(':'));
    }
    assert(a.0 =~= s.take(p));
    assert(b.0 =~= s.take(q));
    assert(a.1 =~= s.skip(p + 1));
    assert(b.1 =~= s.skip(q + 1));
}

/// The wire form of `id`.
pub fn render_identifier(id: &Identifier) -> (r: RawIdentier)
    ensures
        r@ == joined(id_view(*id)),
{
    proof {
        reveal_strlit(":");
    }
    let mut r = id.0.clone();
    r.append(":");
    r.append(id.1.as_str());
    assert(":"@ =~= seq![':']);
    r
}

/// Reads an identifier from its wire form. Succeeds on exactly the texts
/// that are the wire form of an identifier with two non-empty, colon-free
/// parts.
pub fn parse_identifier(s: &str) -> (r: Option<Identifier>)
    ensures
        match r {
            Some(id) => valid_parts(id_view(id)) && joined(id_view(id)) == s@,
            None => forall|id: IdView| valid_parts(id) ==> joined(id) != s@,
        },
        match r {
            Some(id) => parsed(s@) == Some(id_view(id)),
            None => parsed(s@) is None,
        },
{
    let r = parse_parts(s);
    proof {
        if r is Some {
            let got = choose|got: IdView| valid_parts(got) && joined(got) == s@;
            lemma_joined_injective(got, id_view(r->0));
        }
    }
    r
}

/// Splits a text at its only colon, where it has exactly one with something
/// on each side.
fn parse_parts(s: &str) -> (r: Option<Identifier>)
    ensures
        match r {
            Some(id) => valid_parts(id_view(id)) && joined(id_view(id)) == s@,
            None => forall|id: IdView| valid_parts(id) ==> joined(id) != s@,
        },
{
    let chars = chars_of(s);
    let n = chars.len();
    let p = match find_char(&chars, 0, ':') {
        Some(p) => p,
        None => {
            assert forall|id: IdView| valid_parts(id) implies joined(id) != s@ by {
                if joined(id) == s@ {
                    assert(joined(id)[id.0.len() as int] == ':');
                }
            }
            return None;
        },
    };
    let second = if p + 1 < n {
        find_char(&chars, p + 1, ':')
    } else {
        None
    };
    if p == 0 || p + 1 == n || second.is_some() {
        assert forall|id: IdView| valid_parts(id) implies joined(id) != s@ by {
            if joined(id) == s@ {
                let q = id.0.len() as int;
                assert(joined(id)[q] == ':');
                if q < p {
                } else if q > p {
                    assert(joined(id)[p as int] == id.0[p as int]);
                    assert(id.0.contains(':'));
                } else {
                    assert(p != 0);
                    assert(s@.len() == q + 1 + id.1.len());
                    let k = second->0 as int;
                    assert(joined(id)[k] == id.1[k - q - 1]);
                    assert(id.1.contains(':'));
                }
            }
        }
        return None;
    }
    let namespace = s.substring_char(0, p).to_owned();
    let name = s.substring_char(p + 1, n).to_owned();
    proof {
        let id = (namespace@, name@);
        assert(joined(id) =~= s@);
        assert(!namespace@.contains(':')) by {
            if namespace@.contains(':') {
                let j = namespace@.index_of(':');
                assert(0 <= j < namespace@.len() && namespace@[j] == ':');
                assert(chars@[j] == ':');
            }
        }
        assert(!name@.contains(':')) by {
            if name@.contains(':') {
                let j = name@.index_of(':');
                assert(0 <= j < name@.len() && name@[j] == ':');
                assert(chars@[p + 1 + j] == ':');
            }
        }
    }
    Some((namespace, name))
}

/// What reading a text as an identifier gives.
pub open spec fn parsed(s: Seq<char>) -> Option<IdView> {
    if exists|id: IdView| valid_parts(id) && joined(id) == s {
        Some(choose|id: IdView| valid_parts(id) && joined(id) == s)
    } else {
        None
    }
}

/// Reading the wire form of an identifier gives that identifier.
pub proof fn lemma_parse_render(id: IdView)
    requires
        valid_parts(id),
    ensures
        parsed(joined(id)) == Some(id),
{
    let got = choose|got: IdView| valid_parts(got) && joined(got) == joined(id);
    lemma_joined_injective(got, id);
}

/// What was read as an identifier has the text read as its wire form.
pub proof fn lemma_render_parse(s: Seq<char>)
    ensures
        match parsed(s) {
            Some(id) => valid_parts(id) && joined(id) == s,
            None => forall|id: IdView| valid_parts(id) ==> joined(id) != s,
        },
{
}

} // verus!
