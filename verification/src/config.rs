//! Configuration.
//!
//! Named sections are kept as pairs of name and value, in the order in which they
//! are walked; no name occurs twice.
use crate::text::same_text;
use vstd::prelude::*;

verus! {

/// The whole configuration.
#[derive(Debug, Clone)]
pub struct Config {
    pub log_level: Option<String>,
    pub log_file: Option<String>,
    pub ssl: Option<SslConfig>,
    pub port_forward: Option<Vec<(String, PortForwardServer)>>,
    pub web_services: Option<Vec<(String, WebServer)>>,
}

/// Certificates to keep up to date.
#[derive(Debug, Clone)]
pub struct SslConfig {
    pub email: String,
    pub cloudflare_api_token: String,
    pub certs: Vec<(String, CertEntry)>,
}

/// One certificate.
#[derive(Debug, Clone)]
pub struct CertEntry {
    pub domains: Vec<String>,
    pub crt_path: String,
    pub key_path: String,
}

/// One forwarded port.
#[derive(Debug)]
pub struct PortForwardServer {
    pub enable: bool,
    pub listen_port: u16,
    pub forward_address: String,
    pub forward_port: u16,
}

/// One reverse proxy.
#[derive(Debug, Clone)]
pub struct WebServer {
    pub enable: bool,
    pub listen_port: u16,
    pub tls_enable: bool,
    pub crt_path: Option<String>,
    pub key_path: Option<String>,
    pub sub_rules: Vec<(String, SubRule)>,
}

/// One route of a reverse proxy.
#[derive(Debug)]
pub struct SubRule {
    pub name: String,
    pub enable: bool,
    pub front_web: String,
    pub backend_address: String,
    pub backend_port: u16,
}

/// The IP filter section.
#[derive(Debug, Clone)]
pub struct IpFilterConfig {
    pub enable: bool,
    /// `white` or `black`.
    pub mode: String,
    /// Where the address list is.
    pub iplist_path: String,
}

impl Clone for PortForwardServer {
    fn clone(&self) -> (r: Self)
        ensures
            r == *self,
    {
        PortForwardServer {
            enable: self.enable,
            listen_port: self.listen_port,
            forward_address: self.forward_address.clone(),
            forward_port: self.forward_port,
        }
    }
}

impl Clone for SubRule {
    fn clone(&self) -> (r: Self)
        ensures
            r == *self,
    {
        SubRule {
            name: self.name.clone(),
            enable: self.enable,
            front_web: self.front_web.clone(),
            backend_address: self.backend_address.clone(),
            backend_port: self.backend_port,
        }
    }
}

/// Whether no name occurs twice.
pub open spec fn names_distinct<V>(s: Seq<(String, V)>) -> bool {
    forall|i: int, j: int| 0 <= i < j < s.len() ==> (#[trigger] s[i]).0@ != (#[trigger] s[j]).0@
}

impl WebServer {
    /// Whether no route occurs twice.
    pub open spec fn wf(self) -> bool {
        names_distinct(self.sub_rules@)
    }
}

impl SslConfig {
    /// Whether no certificate occurs twice.
    pub open spec fn wf(self) -> bool {
        names_distinct(self.certs@)
    }
}

impl Config {
    /// Whether no section occurs twice under its parent.
    pub open spec fn wf(self) -> bool {
        &&& self.ssl matches Some(ssl) ==> ssl.wf()
        &&& self.port_forward matches Some(all) ==> names_distinct(all@)
        &&& self.web_services matches Some(all) ==> names_distinct(all@) && forall|i: int|
            0 <= i < all@.len() ==> (#[trigger] all@[i]).1.wf()
    }
}

proof fn lemma_filter_keeps_distinct<V>(s: Seq<(String, V)>, pred: spec_fn((String, V)) -> bool)
    ensures
        forall|k: int| 0 <= k < s.filter(pred).len() ==> s.contains(#[trigger] s.filter(pred)[k]),
        names_distinct(s) ==> names_distinct(s.filter(pred)),
    decreases s.len(),
{
    reveal(Seq::filter);
    if s.len() > 0 {
        let init = s.drop_last();
        let kept = init.filter(pred);
        let all = s.filter(pred);
        lemma_filter_keeps_distinct(init, pred);
        assert forall|k: int| 0 <= k < all.len() implies s.contains(#[trigger] all[k]) by {
            if k < kept.len() {
                assert(all[k] == kept[k]);
                let j = choose|j: int| 0 <= j < init.len() && init[j] == kept[k];
                assert(s[j] == all[k]);
            } else {
                assert(s[s.len() - 1] == all[k]);
            }
        }
        if names_distinct(s) {
            assert(names_distinct(init)) by {
                assert forall|i: int, j: int| 0 <= i < j < init.len() implies (
                #[trigger] init[i]).0@ != (#[trigger] init[j]).0@ by {
                    assert(s[i] == init[i]);
                    assert(s[j] == init[j]);
                }
            }
            assert forall|i: int, j: int| 0 <= i < j < all.len() implies (#[trigger] all[i]).0@ != (
            #[trigger] all[j]).0@ by {
                assert(all[i] == kept[i]);
                if j < kept.len() {
                    assert(all[j] == kept[j]);
                } else {
                    let k = choose|k: int| 0 <= k < init.len() && init[k] == kept[i];
                    assert(s[k] == init[k]);
                    assert(s[s.len() - 1] == all[j]);
                }
            }
        }
    }
}

/// The value of one field of a reverse proxy section.
#[derive(Debug)]
pub enum FieldValue {
    Bool(bool),
    Uint(u64),
    Text(String),
    /// A mapping with all that a route needs.
    Rule(SubRule),
    /// Anything else.
    Other,
}

/// The field that a reverse proxy section lacks, or that holds a value of the wrong
/// kind.
#[derive(Debug, Clone, Copy, PartialEq, Eq, Structural)]
pub enum MissingField {
    Enable,
    ListenPort,
    TlsEnable,
}

impl MissingField {
    /// The name of the field.
    pub open spec fn name_spec(self) -> Seq<char> {
        match self {
            MissingField::Enable => "enable"@,
            MissingField::ListenPort => "listen_port"@,
            MissingField::TlsEnable => "tls_enable"@,
        }
    }

    /// The name of the field.
    pub fn name(&self) -> (r: &'static str)
        ensures
            r@ == self.name_spec(),
    {
        match self {
            MissingField::Enable => "enable",
            MissingField::ListenPort => "listen_port",
            MissingField::TlsEnable => "tls_enable",
        }
    }
}

/// The names that a reverse proxy section uses for itself; every other name is that
/// of a route.
pub open spec fn is_reserved(name: Seq<char>) -> bool {
    ||| name == "enable"@
    ||| name == "listen_port"@
    ||| name == "tls_enable"@
    ||| name == "crt_path"@
    ||| name == "key_path"@
}

/// The value of the first field with that name.
pub open spec fn field_at(fields: Seq<(String, FieldValue)>, name: Seq<char>) -> Option<FieldValue>
    decreases fields.len(),
{
    if fields.len() == 0 {
        None
    } else if fields[0].0@ == name {
        Some(fields[0].1)
    } else {
        field_at(fields.skip(1), name)
    }
}

/// The field's value as a flag.
pub open spec fn bool_at(fields: Seq<(String, FieldValue)>, name: Seq<char>) -> Option<bool> {
    match field_at(fields, name) {
        Some(FieldValue::Bool(b)) => Some(b),
        _ => None,
    }
}

/// The field's value as a number.
pub open spec fn uint_at(fields: Seq<(String, FieldValue)>, name: Seq<char>) -> Option<u64> {
    match field_at(fields, name) {
        Some(FieldValue::Uint(n)) => Some(n),
        _ => None,
    }
}

/// The field's value as a text.
pub open spec fn text_at(fields: Seq<(String, FieldValue)>, name: Seq<char>) -> Option<String> {
    match field_at(fields, name) {
        Some(FieldValue::Text(t)) => Some(t),
        _ => None,
    }
}

/// The routes among the fields, in their order. Fields with another name that are no
/// route are left out.
pub open spec fn rules_of(fields: Seq<(String, FieldValue)>) -> Seq<(String, SubRule)>
    decreases fields.len(),
{
    if fields.len() == 0 {
        Seq::empty()
    } else {
        let before = rules_of(fields.drop_last());
        match fields.last().1 {
            FieldValue::Rule(rule) => if is_reserved(fields.last().0@) {
                before
            } else {
                before.push((fields.last().0, rule))
            },
            _ => before,
        }
    }
}

/// The field that is found missing, if there is one.
pub open spec fn missing_field(fields: Seq<(String, FieldValue)>) -> Option<MissingField> {
    if bool_at(fields, "enable"@) is None {
        Some(MissingField::Enable)
    } else if uint_at(fields, "listen_port"@) is None {
        Some(MissingField::ListenPort)
    } else if bool_at(fields, "tls_enable"@) is None {
        Some(MissingField::TlsEnable)
    } else {
        None
    }
}

/// Tells whether a reverse proxy section uses the name for itself.
pub fn is_reserved_name(name: &str) -> (r: bool)
    ensures
        r == is_reserved(name@),
{
    same_text(name, "enable") || same_text(name, "listen_port") || same_text(name, "tls_enable")
        || same_text(name, "crt_path") || same_text(name, "key_path")
}

fn find_field<'a>(fields: &'a Vec<(String, FieldValue)>, name: &str) -> (r: Option<&'a FieldValue>)
    ensures
        match r {
            Some(v) => field_at(fields@, name@) == Some(*v),
            None => field_at(fields@, name@) is None,
        },
{
    let mut i: usize = 0;
    proof {
        assert(fields@.skip(0) =~= fields@);
    }
    while i < fields.len()
        invariant
            i <= fields.len(),
            field_at(fields@, name@) == field_at(fields@.skip(i as int), name@),
        decreases fields.len() - i,
    {
        if same_text(fields[i].0.as_str(), name) {
            return Some(&fields[i].1);
        }
        proof {
            assert(fields@.skip(i as int).skip(1) =~= fields@.skip(i + 1));
        }
        i = i + 1;
    }
    None
}

fn find_bool(fields: &Vec<(String, FieldValue)>, name: &str) -> (r: Option<bool>)
    ensures
        r == bool_at(fields@, name@),
{
    match find_field(fields, name) {
        Some(FieldValue::Bool(b)) => Some(*b),
        _ => None,
    }
}

fn find_uint(fields: &Vec<(String, FieldValue)>, name: &str) -> (r: Option<u64>)
    ensures
        r == uint_at(fields@, name@),
{
    match find_field(fields, name) {
        Some(FieldValue::Uint(n)) => Some(*n),
        _ => None,
    }
}

fn find_text(fields: &Vec<(String, FieldValue)>, name: &str) -> (r: Option<String>)
    ensures
        r == text_at(fields@, name@),
{
    match find_field(fields, name) {
        Some(FieldValue::Text(t)) => Some(t.clone()),
        _ => None,
    }
}

fn find_rules(fields: &Vec<(String, FieldValue)>) -> (r: Vec<(String, SubRule)>)
    ensures
        r@ == rules_of(fields@),
{
    let mut rules: Vec<(String, SubRule)> = Vec::new();
    let mut i: usize = 0;
    proof {
        assert(fields@.take(0) =~= Seq::<(String, FieldValue)>::empty());
    }
    while i < fields.len()
        invariant
            i <= fields.len(),
            rules@ == rules_of(fields@.take(i as int)),
        decreases fields.len() - i,
    {
        proof {
            assert(fields@.take(i + 1).drop_last() =~= fields@.take(i as int));
            assert(fields@.take(i + 1).last() == fields@[i as int]);
        }
        if let FieldValue::Rule(rule) = &fields[i].1 {
            if !is_reserved_name(fields[i].0.as_str()) {
                rules.push((fields[i].0.clone(), rule.clone()));
            }
        }
        i = i + 1;
    }
    proof {
        assert(fields@.take(i as int) =~= fields@);
    }
    rules
}

proof fn lemma_rules_of(fields: Seq<(String, FieldValue)>)
    ensures
        forall|j: int|
            0 <= j < rules_of(fields).len() ==> !is_reserved(
                (#[trigger] rules_of(fields)[j]).0@,
            ) && exists|i: int|
                0 <= i < fields.len() && (#[trigger] fields[i]).0 == rules_of(fields)[j].0
                    && fields[i].1 == FieldValue::Rule(rules_of(fields)[j].1),
        names_distinct(fields) ==> names_distinct(rules_of(fields)),
    decreases fields.len(),
{
    if fields.len() > 0 {
        let init = fields.drop_last();
        lemma_rules_of(init);
        let before = rules_of(init);
        assert forall|j: int| 0 <= j < rules_of(fields).len() implies !is_reserved(
            (#[trigger] rules_of(fields)[j]).0@,
        ) && exists|i: int|
            0 <= i < fields.len() && (#[trigger] fields[i]).0 == rules_of(fields)[j].0
                && fields[i].1 == FieldValue::Rule(rules_of(fields)[j].1) by {
            if j < before.len() {
                assert(rules_of(fields)[j] == before[j]);
                let i = choose|i: int|
                    0 <= i < init.len() && (#[trigger] init[i]).0 == before[j].0 && init[i].1
                        == FieldValue::Rule(before[j].1);
                assert(fields[i] == init[i]);
            } else {
                assert(fields[fields.len() - 1] == fields.last());
            }
        }
        if names_distinct(fields) {
            assert(names_distinct(init)) by {
                assert forall|i: int, j: int| 0 <= i < j < init.len() implies (
                #[trigger] init[i]).0@ != (#[trigger] init[j]).0@ by {
                    assert(fields[i] == init[i]);
                    assert(fields[j] == init[j]);
                }
            }
            assert forall|i: int, j: int| 0 <= i < j < rules_of(fields).len() implies (
            #[trigger] rules_of(fields)[i]).0@ != (#[trigger] rules_of(fields)[j]).0@ by {
                assert(rules_of(fields)[i] == before[i]);
                if j < before.len() {
                    assert(rules_of(fields)[j] == before[j]);
                } else {
                    let k = choose|k: int|
                        0 <= k < init.len() && (#[trigger] init[k]).0 == before[i].0 && init[k].1
                            == FieldValue::Rule(before[i].1);
                    assert(fields[k] == init[k]);
                    assert(fields[fields.len() - 1] == fields.last());
                }
            }
        }
    }
}

/// Whether a reverse proxy is what the fields of its section say.
pub open spec fn is_read_from(w: WebServer, fields: Seq<(String, FieldValue)>) -> bool {
    &&& Some(w.enable) == bool_at(fields, "enable"@)
    &&& w.listen_port as nat == uint_at(fields, "listen_port"@)->0 as nat % 65536
    &&& Some(w.tls_enable) == bool_at(fields, "tls_enable"@)
    &&& w.crt_path == text_at(fields, "crt_path"@)
    &&& w.key_path == text_at(fields, "key_path"@)
    &&& w.sub_rules@ == rules_of(fields)
}

impl WebServer {
    /// Makes a reverse proxy from the fields of its section. A port over 16 bits keeps
    /// its lowest 16.
    pub fn from_fields(fields: &Vec<(String, FieldValue)>) -> (r: Result<WebServer, MissingField>)
        ensures
            match r {
                Err(f) => missing_field(fields@) == Some(f),
                Ok(w) => {
                    &&& missing_field(fields@) is None
                    &&& is_read_from(w, fields@)
                    &&& forall|j: int|
                        0 <= j < w.sub_rules@.len() ==> !is_reserved(
                            (#[trigger] w.sub_rules@[j]).0@,
                        )
                    &&& names_distinct(fields@) ==> w.wf()
                },
            },
    {
        let enable: bool = match find_bool(fields, "enable") {
            Some(b) => b,
            None => {
                return Err(MissingField::Enable);
            },
        };
        let port: u64 = match find_uint(fields, "listen_port") {
            Some(n) => n,
            None => {
                return Err(MissingField::ListenPort);
            },
        };
        let tls_enable: bool = match find_bool(fields, "tls_enable") {
            Some(b) => b,
            None => {
                return Err(MissingField::TlsEnable);
            },
        };
        let listen_port: u16 = (port % 65536) as u16;
        proof {
            lemma_rules_of(fields@);
        }
        Ok(
            WebServer {
                enable,
                listen_port,
                tls_enable,
                crt_path: find_text(fields, "crt_path"),
                key_path: find_text(fields, "key_path"),
                sub_rules: find_rules(fields),
            },
        )
    }
}

/// A route with a name of its own, in a section that lacks nothing, is a route of the
/// reverse proxy; nothing else is.
pub proof fn routes_are_the_unreserved_rules(
    fields: Seq<(String, FieldValue)>,
    name: String,
    rule: SubRule,
)
    ensures
        rules_of(fields).contains((name, rule)) <==> !is_reserved(name@) && fields.contains(
            (name, FieldValue::Rule(rule)),
        ),
    decreases fields.len(),
{
    lemma_rules_of(fields);
    if rules_of(fields).contains((name, rule)) {
        let j = choose|j: int| 0 <= j < rules_of(fields).len() && rules_of(fields)[j] == (
            name,
            rule,
        );
        let i = choose|i: int|
            0 <= i < fields.len() && (#[trigger] fields[i]).0 == rules_of(fields)[j].0
                && fields[i].1 == FieldValue::Rule(rules_of(fields)[j].1);
        assert(fields[i] == (name, FieldValue::Rule(rule)));
    }
    if !is_reserved(name@) && fields.contains((name, FieldValue::Rule(rule))) {
        let i = choose|i: int| 0 <= i < fields.len() && fields[i] == (
            name,
            FieldValue::Rule(rule),
        );
        let init = fields.drop_last();
        let before = rules_of(init);
        if i < init.len() {
            assert(init[i] == fields[i]);
            routes_are_the_unreserved_rules(init, name, rule);
            let j = choose|j: int| 0 <= j < before.len() && before[j] == (name, rule);
            assert(rules_of(fields)[j] == before[j]);
        } else {
            assert(rules_of(fields)[before.len() as int] == (name, rule));
        }
    }
}

/// The enabled ones among the forwarded ports.
pub open spec fn enabled_forwards_spec(s: Seq<(String, PortForwardServer)>) -> Seq<
    (String, PortForwardServer),
> {
    s.filter(|p: (String, PortForwardServer)| p.1.enable)
}

/// The enabled ones among the reverse proxies.
pub open spec fn enabled_services_spec(s: Seq<(String, WebServer)>) -> Seq<(String, WebServer)> {
    s.filter(|p: (String, WebServer)| p.1.enable)
}

impl Config {
    /// The forwarded ports to start.
    pub fn enabled_forwards(&self) -> (r: Vec<(String, PortForwardServer)>)
        ensures
            r@ == match self.port_forward {
                Some(all) => enabled_forwards_spec(all@),
                None => Seq::empty(),
            },
            self.wf() ==> names_distinct(r@),
    {
        let mut out: Vec<(String, PortForwardServer)> = Vec::new();
        if let Some(all) = &self.port_forward {
            let ghost pred = |p: (String, PortForwardServer)| p.1.enable;
            let mut i: usize = 0;
            proof {
                reveal(Seq::filter);
                assert(all@.take(0) =~= Seq::<(String, PortForwardServer)>::empty());
            }
            while i < all.len()
                invariant
                    i <= all.len(),
                    pred == (|p: (String, PortForwardServer)| p.1.enable),
                    out@ == all@.take(i as int).filter(pred),
                decreases all.len() - i,
            {
                proof {
                    reveal(Seq::filter);
                    assert(all@.take(i + 1).drop_last() =~= all@.take(i as int));
                    assert(all@.take(i + 1).last() == all@[i as int]);
                }
                if all[i].1.enable {
                    out.push((all[i].0.clone(), all[i].1.clone()));
                }
                i = i + 1;
            }
            proof {
                assert(all@.take(i as int) =~= all@);
                lemma_filter_keeps_distinct(all@, pred);
            }
        }
        out
    }

    /// The reverse proxies to start.
    pub fn enabled_services(&self) -> (r: Vec<&(String, WebServer)>)
        ensures
            r@.map_values(|p: &(String, WebServer)| *p) == match self.web_services {
                Some(all) => enabled_services_spec(all@),
                None => Seq::empty(),
            },
            self.wf() ==> names_distinct(r@.map_values(|p: &(String, WebServer)| *p)),
    {
        let mut out: Vec<&(String, WebServer)> = Vec::new();
        let ghost own = |p: &(String, WebServer)| *p;
        proof {
            assert(out@.map_values(own) =~= Seq::<(String, WebServer)>::empty());
        }
        if let Some(all) = &self.web_services {
            let ghost pred = |p: (String, WebServer)| p.1.enable;
            let mut i: usize = 0;
            proof {
                reveal(Seq::filter);
                assert(all@.take(0) =~= Seq::<(String, WebServer)>::empty());
            }
            while i < all.len()
                invariant
                    i <= all.len(),
                    pred == (|p: (String, WebServer)| p.1.enable),
                    own == (|p: &(String, WebServer)| *p),
                    out@.map_values(own) == all@.take(i as int).filter(pred),
                decreases all.len() - i,
            {
                let ghost before = out@;
                proof {
                    reveal(Seq::filter);
                    assert(all@.take(i + 1).drop_last() =~= all@.take(i as int));
                    assert(all@.take(i + 1).last() == all@[i as int]);
                }
                if all[i].1.enable {
                    out.push(&all[i]);
                    proof {
                        assert(out@.map_values(own) =~= before.map_values(own).push(
                            all@[i as int],
                        ));
                    }
                }
                i = i + 1;
            }
            proof {
                assert(all@.take(i as int) =~= all@);
                lemma_filter_keeps_distinct(all@, pred);
            }
        }
        out
    }
}

/// A field is found by its name: what stands under a name that occurs once is what is found
/// for it, and nothing is found for a name that does not occur.
pub proof fn fields_are_found_by_name(
    fields: Seq<(String, FieldValue)>,
    name: Seq<char>,
    i: int,
)
    ensures
        names_distinct(fields) && 0 <= i < fields.len() && fields[i].0@ == name ==> field_at(
            fields,
            name,
        ) == Some(fields[i].1),
        field_at(fields, name) is None <==> forall|k: int|
            0 <= k < fields.len() ==> (#[trigger] fields[k]).0@ != name,
    decreases fields.len(),
{
    if fields.len() > 0 {
        let rest = fields.skip(1);
        fields_are_found_by_name(rest, name, i - 1);
        assert forall|k: int| 0 < k < fields.len() implies #[trigger] fields[k] == rest[k - 1] by {}
        assert forall|k: int| 0 <= k < rest.len() implies #[trigger] rest[k] == fields[k + 1] by {}
        if names_distinct(fields) {
            assert forall|a: int, b: int| 0 <= a < b < rest.len() implies (#[trigger] rest[a]).0@
                != (#[trigger] rest[b]).0@ by {
                assert(fields[a + 1].0@ != fields[b + 1].0@);
            }
        }
        if fields[0].0@ != name && field_at(rest, name) is None {
            assert forall|k: int| 0 <= k < fields.len() implies (#[trigger] fields[k]).0@
                != name by {
                if k > 0 {
                    assert(rest[k - 1].0@ != name);
                }
            }
        }
        if field_at(fields, name) is Some && fields[0].0@ != name {
            let k = choose|k: int| 0 <= k < rest.len() && (#[trigger] rest[k]).0@ == name;
            assert(fields[k + 1].0@ == name);
        }
    }
}

/// A flag, a number and a text are the very values that stand under their name, and a value
/// of another kind is none.
pub proof fn field_values_are_kept(fields: Seq<(String, FieldValue)>, i: int)
    requires
        names_distinct(fields),
        0 <= i < fields.len(),
    ensures
        match fields[i].1 {
            FieldValue::Bool(b) => bool_at(fields, fields[i].0@) == Some(b) && uint_at(
                fields,
                fields[i].0@,
            ) is None && text_at(fields, fields[i].0@) is None,
            FieldValue::Uint(n) => uint_at(fields, fields[i].0@) == Some(n) && bool_at(
                fields,
                fields[i].0@,
            ) is None && text_at(fields, fields[i].0@) is None,
            FieldValue::Text(t) => text_at(fields, fields[i].0@) == Some(t) && bool_at(
                fields,
                fields[i].0@,
            ) is None && uint_at(fields, fields[i].0@) is None,
            _ => bool_at(fields, fields[i].0@) is None && uint_at(fields, fields[i].0@) is None
                && text_at(fields, fields[i].0@) is None,
        },
{
    fields_are_found_by_name(fields, fields[i].0@, i);
}

/// Nothing is read from a name that no field has.
pub proof fn absent_fields_have_no_value(fields: Seq<(String, FieldValue)>, name: Seq<char>)
    requires
        forall|k: int| 0 <= k < fields.len() ==> (#[trigger] fields[k]).0@ != name,
    ensures
        bool_at(fields, name) is None,
        uint_at(fields, name) is None,
        text_at(fields, name) is None,
{
    fields_are_found_by_name(fields, name, 0);
}

/// A section lacks something exactly if a flag `enable`, a number `listen_port` or a flag
/// `tls_enable` is not there, and the first of these is named.
pub proof fn missing_fields_are_named_in_order(fields: Seq<(String, FieldValue)>)
    ensures
        missing_field(fields) == Some(MissingField::Enable) <==> bool_at(fields, "enable"@) is None,
        missing_field(fields) == Some(MissingField::ListenPort) <==> bool_at(
            fields,
            "enable"@,
        ) is Some && uint_at(fields, "listen_port"@) is None,
        missing_field(fields) == Some(MissingField::TlsEnable) <==> bool_at(
            fields,
            "enable"@,
        ) is Some && uint_at(fields, "listen_port"@) is Some && bool_at(
            fields,
            "tls_enable"@,
        ) is None,
        missing_field(fields) is None <==> bool_at(fields, "enable"@) is Some && uint_at(
            fields,
            "listen_port"@,
        ) is Some && bool_at(fields, "tls_enable"@) is Some,
        MissingField::Enable.name_spec() == "enable"@,
        MissingField::ListenPort.name_spec() == "listen_port"@,
        MissingField::TlsEnable.name_spec() == "tls_enable"@,
{
}

/// A section uses exactly five names for itself.
pub proof fn five_names_are_reserved(name: Seq<char>)
    ensures
        is_reserved(name) <==> seq![
            "enable"@,
            "listen_port"@,
            "tls_enable"@,
            "crt_path"@,
            "key_path"@,
        ].contains(name),
{
    let all = seq!["enable"@, "listen_port"@, "tls_enable"@, "crt_path"@, "key_path"@];
    if is_reserved(name) {
        assert(all[0] == "enable"@ && all[1] == "listen_port"@ && all[2] == "tls_enable"@ && all[3]
            == "crt_path"@ && all[4] == "key_path"@);
        assert(all.contains(all[0]) && all.contains(all[1]) && all.contains(all[2])
            && all.contains(all[3]) && all.contains(all[4]));
    }
}

/// What is started is what is enabled, and all of it.
pub proof fn enabled_is_what_starts(
    forwards: Seq<(String, PortForwardServer)>,
    services: Seq<(String, WebServer)>,
    f: (String, PortForwardServer),
    w: (String, WebServer),
)
    ensures
        enabled_forwards_spec(forwards).contains(f) <==> forwards.contains(f) && f.1.enable,
        enabled_services_spec(services).contains(w) <==> services.contains(w) && w.1.enable,
{
    lemma_filter_is_all(forwards, |p: (String, PortForwardServer)| p.1.enable, f);
    lemma_filter_is_all(services, |p: (String, WebServer)| p.1.enable, w);
}

proof fn lemma_filter_is_all<V>(
    s: Seq<(String, V)>,
    pred: spec_fn((String, V)) -> bool,
    x: (String, V),
)
    ensures
        s.filter(pred).contains(x) <==> s.contains(x) && pred(x),
{
    lemma_filter_keeps_distinct(s, pred);
    if s.filter(pred).contains(x) {
        let k = choose|k: int| 0 <= k < s.filter(pred).len() && s.filter(pred)[k] == x;
        s.lemma_filter_pred(pred, k);
        assert(s.contains(s.filter(pred)[k]));
    }
    if s.contains(x) && pred(x) {
        let i = choose|i: int| 0 <= i < s.len() && s[i] == x;
        s.lemma_filter_contains(pred, i);
    }
}

/// What a field or a section adds to those before it: a route under a name of its own is added
/// last, what is enabled is added last, and nothing else is added.
pub proof fn sections_are_kept_in_order(
    fields: Seq<(String, FieldValue)>,
    field: (String, FieldValue),
    forwards: Seq<(String, PortForwardServer)>,
    forward: (String, PortForwardServer),
    services: Seq<(String, WebServer)>,
    service: (String, WebServer),
)
    ensures
        rules_of(fields.push(field)) == match field.1 {
            FieldValue::Rule(rule) => if is_reserved(field.0@) {
                rules_of(fields)
            } else {
                rules_of(fields).push((field.0, rule))
            },
            _ => rules_of(fields),
        },
        rules_of(Seq::empty()) == Seq::<(String, SubRule)>::empty(),
        enabled_forwards_spec(forwards.push(forward)) == if forward.1.enable {
            enabled_forwards_spec(forwards).push(forward)
        } else {
            enabled_forwards_spec(forwards)
        },
        enabled_forwards_spec(Seq::empty()) == Seq::<(String, PortForwardServer)>::empty(),
        enabled_services_spec(services.push(service)) == if service.1.enable {
            enabled_services_spec(services).push(service)
        } else {
            enabled_services_spec(services)
        },
        enabled_services_spec(Seq::empty()) == Seq::<(String, WebServer)>::empty(),
{
    reveal(Seq::filter);
    assert(fields.push(field).drop_last() =~= fields);
    assert(forwards.push(forward).drop_last() =~= forwards);
    assert(services.push(service).drop_last() =~= services);
}

/// Each setting of a reverse proxy is the value that stands under its own name in the section:
/// the flags and paths as they are, the port by its lowest 16 bits, and a path that is not
/// there is none.
pub proof fn settings_stand_under_their_names(
    w: WebServer,
    fields: Seq<(String, FieldValue)>,
    i: int,
)
    requires
        names_distinct(fields),
        is_read_from(w, fields),
        0 <= i < fields.len(),
    ensures
        fields[i].0@ == "enable"@ ==> fields[i].1 == FieldValue::Bool(w.enable),
        fields[i].0@ == "tls_enable"@ ==> fields[i].1 == FieldValue::Bool(w.tls_enable),
        fields[i].0@ == "listen_port"@ ==> (fields[i].1 matches FieldValue::Uint(n)
            ==> w.listen_port as int == n as int % 65536),
        fields[i].0@ == "crt_path"@ ==> (fields[i].1 matches FieldValue::Text(t) ==> w.crt_path
            == Some(t)),
        fields[i].0@ == "key_path"@ ==> (fields[i].1 matches FieldValue::Text(t) ==> w.key_path
            == Some(t)),
        fields[i].0@ == "crt_path"@ && !(fields[i].1 is Text) ==> w.crt_path is None,
        fields[i].0@ == "key_path"@ && !(fields[i].1 is Text) ==> w.key_path is None,
        (forall|k: int| 0 <= k < fields.len() ==> (#[trigger] fields[k]).0@ != "crt_path"@)
            ==> w.crt_path is None,
        (forall|k: int| 0 <= k < fields.len() ==> (#[trigger] fields[k]).0@ != "key_path"@)
            ==> w.key_path is None,
        w.sub_rules@ == rules_of(fields),
{
    field_values_are_kept(fields, i);
    fields_are_found_by_name(fields, "crt_path"@, i);
    fields_are_found_by_name(fields, "key_path"@, i);
}

} // verus!
