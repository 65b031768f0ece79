use vstd::prelude::*;
use vstd::std_specs::cmp::PartialEqSpec;

verus! {

/// The name under which the network interface of a node is addressed.
pub const NETWORKINTERFACE: &'static str = "networkinterface";

/// The name under which the connector actor of a node, which runs the gossip
/// protocol by default, is addressed.
pub const GOSSIP: &'static str = "gossip";

/// Which actor on a remote node a message is meant for.
#[derive(Debug, Hash)]
pub enum AddrRepresentation {
    NetworkInterface,
    Connector,
    Key(String),
}

/// The text `"Key"`, which `eq` treats apart.
pub open spec fn key_text() -> Seq<char> {
    "Key"@
}

impl AddrRepresentation {
    /// The text that `to_string` gives for a representation.
    pub open spec fn text(self) -> Seq<char> {
        match self {
            AddrRepresentation::NetworkInterface => NETWORKINTERFACE@,
            AddrRepresentation::Connector => GOSSIP@,
            AddrRepresentation::Key(id) => id@,
        }
    }

    /// `r` is what `from_str` reads from the text `s`: the two reserved names
    /// give their variants, any other text gives a key holding that text.
    pub open spec fn parsed_from(s: Seq<char>, r: AddrRepresentation) -> bool {
        if s == NETWORKINTERFACE@ {
            r is NetworkInterface
        } else if s == GOSSIP@ {
            r is Connector
        } else {
            r is Key && r->Key_0@ == s
        }
    }

    /// The representation written as text.
    pub fn to_string(&self) -> (r: String)
        ensures
            r@ == self.text(),
    {
        match self {
            AddrRepresentation::NetworkInterface => NETWORKINTERFACE.to_owned(),
            AddrRepresentation::Connector => GOSSIP.to_owned(),
            AddrRepresentation::Key(id) => id.clone(),
        }
    }

    /// Reads a representation from text; this never fails.
    pub fn from_str(s: &str) -> (r: Result<AddrRepresentation, ()>)
        ensures
            r is Ok,
            AddrRepresentation::parsed_from(s@, r->Ok_0),
    {
        let owned: String = s.to_owned();
        if owned == NETWORKINTERFACE.to_owned() {
            Ok(AddrRepresentation::NetworkInterface)
        } else if owned == GOSSIP.to_owned() {
            Ok(AddrRepresentation::Connector)
        } else {
            Ok(AddrRepresentation::Key(owned))
        }
    }
}

impl Clone for AddrRepresentation {
    /// A copy made by writing the representation as text and reading it back.
    fn clone(&self) -> (r: Self)
        ensures
            AddrRepresentation::parsed_from(self.text(), r),
    {
        let text = self.to_string();
        match AddrRepresentation::from_str(text.as_str()) {
            Ok(r) => r,
            Err(_) => AddrRepresentation::Key(text),
        }
    }
}

impl PartialEq for AddrRepresentation {
    fn eq(&self, other: &Self) -> (r: bool) {
        let self_key = self.to_string();
        let other_key = other.to_string();
        let key_word: String = "Key".to_owned();
        let first: bool = self_key == other_key && !(self_key == key_word);
        let second: bool = self_key == key_word && match self {
            AddrRepresentation::Key(key) => match other {
                AddrRepresentation::Key(other_key) => *key == *other_key,
                _ => false,
            },
            _ => false,
        };
        first || second
    }
}

impl vstd::std_specs::cmp::PartialEqSpecImpl for AddrRepresentation {
    open spec fn obeys_eq_spec() -> bool {
        true
    }

    open spec fn eq_spec(&self, other: &Self) -> bool {
        (self.text() == other.text() && self.text() != key_text()) || (self.text() == key_text()
            && match (*self, *other) {
            (AddrRepresentation::Key(key), AddrRepresentation::Key(other_key)) => key@ == other_key@,
            _ => false,
        })
    }
}

impl Eq for AddrRepresentation {}

/// Two representations are `==` exactly when they are written as the same text.
pub proof fn lemma_eq_iff_same_text(a: AddrRepresentation, b: AddrRepresentation)
    ensures
        a.eq_spec(&b) <==> a.text() == b.text(),
{
    reveal_strlit("networkinterface");
    reveal_strlit("gossip");
    reveal_strlit("Key");
    assert(NETWORKINTERFACE@ == "networkinterface"@);
    assert(GOSSIP@ == "gossip"@);
    assert(key_text().len() == 3);
    assert(NETWORKINTERFACE@.len() == 16);
    assert(GOSSIP@.len() == 6);
}

/// `==` on representations is reflexive, symmetric and transitive.
pub proof fn lemma_eq_is_equivalence(a: AddrRepresentation, b: AddrRepresentation, c: AddrRepresentation)
    ensures
        a.eq_spec(&a),
        a.eq_spec(&b) ==> b.eq_spec(&a),
        a.eq_spec(&b) && b.eq_spec(&c) ==> a.eq_spec(&c),
{
    lemma_eq_iff_same_text(a, a);
    lemma_eq_iff_same_text(a, b);
    lemma_eq_iff_same_text(b, a);
    lemma_eq_iff_same_text(b, c);
    lemma_eq_iff_same_text(a, c);
}

/// Reading a text and writing the result gives back the same text.
pub proof fn lemma_parse_then_text(s: Seq<char>, r: AddrRepresentation)
    requires
        AddrRepresentation::parsed_from(s, r),
    ensures
        r.text() == s,
{
}

/// Writing a representation as text and reading it back gives a representation
/// that is `==` to the first; this is what `clone` returns.
pub proof fn lemma_text_then_parse(a: AddrRepresentation, r: AddrRepresentation)
    requires
        AddrRepresentation::parsed_from(a.text(), r),
    ensures
        r.text() == a.text(),
        r.eq_spec(&a),
        a.eq_spec(&r),
{
    lemma_eq_iff_same_text(r, a);
    lemma_eq_iff_same_text(a, r);
}

/// The two reserved names and the keys are told apart: a key whose text is not
/// a reserved name is read back as the same key.
pub proof fn lemma_key_roundtrip(a: AddrRepresentation, r: AddrRepresentation)
    requires
        a is Key,
        a.text() != NETWORKINTERFACE@,
        a.text() != GOSSIP@,
        AddrRepresentation::parsed_from(a.text(), r),
    ensures
        r is Key,
        r->Key_0@ == a->Key_0@,
{
}

} // verus!
