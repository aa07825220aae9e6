//! Which certificates are trusted, and what a connection does when that is not clear.
use vstd::prelude::*;

verus! {

/// What certificates are trusted.
#[derive(Debug)]
pub struct TlsTrust {
    /// The roots of the operating system.
    pub native_roots: bool,
    /// The roots that come with the build. `None`: as the build has it.
    pub webpki_roots: Option<bool>,
    /// Nothing but the files below.
    pub exclusive: bool,
    /// Files with root certificates.
    pub extra_roots: Vec<String>,
    /// Files with intermediate certificates.
    pub extra_intermediates: Vec<String>,
}

impl Default for TlsTrust {
    fn default() -> (r: TlsTrust)
        ensures
            trust_of(r) == default_trust(),
    {
        let r = TlsTrust {
            native_roots: true,
            webpki_roots: None,
            exclusive: false,
            extra_roots: Vec::new(),
            extra_intermediates: Vec::new(),
        };
        proof {
            assert(trust_of(r).extra_roots =~= Seq::empty());
            assert(trust_of(r).extra_intermediates =~= Seq::empty());
        }
        r
    }
}

/// What certificates are trusted, with texts and lists as sequences.
#[verifier::ext_equal]
pub struct Trust {
    pub native_roots: bool,
    pub webpki_roots: Option<bool>,
    pub exclusive: bool,
    pub extra_roots: Seq<Seq<char>>,
    pub extra_intermediates: Seq<Seq<char>>,
}

/// The trust that a value describes.
pub open spec fn trust_of(t: TlsTrust) -> Trust {
    Trust {
        native_roots: t.native_roots,
        webpki_roots: t.webpki_roots,
        exclusive: t.exclusive,
        extra_roots: crate::sql::texts(t.extra_roots@),
        extra_intermediates: crate::sql::texts(t.extra_intermediates@),
    }
}

/// The trust that the first change starts from.
pub open spec fn default_trust() -> Trust {
    Trust {
        native_roots: true,
        webpki_roots: None,
        exclusive: false,
        extra_roots: Seq::empty(),
        extra_intermediates: Seq::empty(),
    }
}

/// A change of the trust.
#[derive(Debug)]
pub enum TrustChange {
    NativeRoots(bool),
    WebpkiRoots(bool),
    Exclusive,
    RootCa(String),
    Intermediate(String),
}

/// The trust after a change.
pub open spec fn changed(t: Trust, change: TrustChange) -> Trust {
    match change {
        TrustChange::NativeRoots(on) => Trust { native_roots: on, ..t },
        TrustChange::WebpkiRoots(on) => Trust { webpki_roots: Some(on), ..t },
        TrustChange::Exclusive => Trust { exclusive: true, ..t },
        TrustChange::RootCa(path) => Trust { extra_roots: t.extra_roots.push(path@), ..t },
        TrustChange::Intermediate(path) => Trust {
            extra_intermediates: t.extra_intermediates.push(path@),
            ..t
        },
    }
}

/// Where the TLS configuration of a client comes from.
#[derive(Debug)]
pub enum TlsConfigSource {
    /// The caller built it.
    Explicit,
    /// It is built from this trust.
    Trust(TlsTrust),
}

/// The TLS configuration that connections are made with.
#[derive(Debug, Clone, Copy, PartialEq, Eq, Structural)]
pub enum HttpTls {
    /// What the build has by default.
    Default,
    /// The configuration that was resolved.
    Resolved,
    /// One that trusts nobody and refuses every connection.
    FailClosed,
}

/// A copy of a list of strings.
pub fn copy_strings(v: &Vec<String>) -> (out: Vec<String>)
    ensures
        crate::sql::texts(out@) == crate::sql::texts(v@),
{
    let mut out: Vec<String> = Vec::new();
    let mut i: usize = 0;
    while i < v.len()
        invariant
            i <= v@.len(),
            crate::sql::texts(out@) == crate::sql::texts(v@).take(i as int),
        decreases v@.len() - i,
    {
        let ghost before = out@;
        out.push(v[i].clone());
        proof {
            let all = crate::sql::texts(v@);
            assert(all.take(i + 1) =~= all.take(i as int).push(all[i as int]));
            assert(crate::sql::texts(out@) =~= crate::sql::texts(before).push(all[i as int]));
        }
        i += 1;
    }
    proof {
        assert(crate::sql::texts(v@).take(i as int) =~= crate::sql::texts(v@));
    }
    out
}

impl Clone for TlsTrust {
    fn clone(&self) -> (r: TlsTrust)
        ensures
            trust_of(r) == trust_of(*self),
    {
        TlsTrust {
            native_roots: self.native_roots,
            webpki_roots: self.webpki_roots,
            exclusive: self.exclusive,
            extra_roots: copy_strings(&self.extra_roots),
            extra_intermediates: copy_strings(&self.extra_intermediates),
        }
    }
}

impl TlsTrust {
    /// The trust after a change.
    pub fn change(self, change: TrustChange) -> (r: TlsTrust)
        ensures
            trust_of(r) == changed(trust_of(self), change),
    {
        let mut out = self;
        match change {
            TrustChange::NativeRoots(on) => {
                out.native_roots = on;
            },
            TrustChange::WebpkiRoots(on) => {
                out.webpki_roots = Some(on);
            },
            TrustChange::Exclusive => {
                out.exclusive = true;
            },
            TrustChange::RootCa(path) => {
                let ghost before = out.extra_roots@;
                let ghost told = path@;
                out.extra_roots.push(path);
                proof {
                    assert(crate::sql::texts(out.extra_roots@) =~= crate::sql::texts(before).push(told));
                }
            },
            TrustChange::Intermediate(path) => {
                let ghost before = out.extra_intermediates@;
                let ghost told = path@;
                out.extra_intermediates.push(path);
                proof {
                    assert(crate::sql::texts(out.extra_intermediates@) =~= crate::sql::texts(
                        before,
                    ).push(told));
                }
            },
        }
        out
    }
}

/// What was asked for, if anything was: a configuration that the caller built, or a trust.
pub open spec fn source_trust(source: Option<TlsConfigSource>) -> Option<Option<Trust>> {
    match source {
        Some(TlsConfigSource::Explicit) => Some(None),
        Some(TlsConfigSource::Trust(t)) => Some(Some(trust_of(t))),
        None => None,
    }
}

/// The trust that a source describes; the default where it describes none.
pub open spec fn current(source: Option<TlsConfigSource>) -> Trust {
    match source {
        Some(TlsConfigSource::Trust(t)) => trust_of(t),
        _ => default_trust(),
    }
}

/// The trust that a source describes; the default where it describes none.
pub fn current_trust(source: &Option<TlsConfigSource>) -> (r: TlsTrust)
    ensures
        trust_of(r) == current(*source),
{
    match source {
        Some(TlsConfigSource::Trust(t)) => t.clone(),
        _ => TlsTrust::default(),
    }
}

/// The TLS configuration that connections are made with. A trust that was asked for and
/// could not be resolved is never replaced by a broader one.
pub open spec fn chosen(source: Option<Option<Trust>>, resolved: bool) -> HttpTls {
    if resolved {
        HttpTls::Resolved
    } else if source is Some {
        HttpTls::FailClosed
    } else {
        HttpTls::Default
    }
}

/// Connections fall back to the default trust only where no other trust was asked for.
pub proof fn default_trust_only_unasked(source: Option<Option<Trust>>, resolved: bool)
    ensures
        source is Some ==> chosen(source, resolved) != HttpTls::Default,
        chosen(source, resolved) == HttpTls::Default ==> source is None && !resolved,
{
}

/// A change of the trust changes what it is about and nothing else: a file that is added comes behind
/// those that were there.
pub proof fn changes_are_about_one_thing(t: Trust, on: bool, path: String)
    ensures
        ({
            let n = changed(t, TrustChange::NativeRoots(on));
            &&& n.native_roots == on
            &&& n.webpki_roots == t.webpki_roots && n.exclusive == t.exclusive
            &&& n.extra_roots == t.extra_roots && n.extra_intermediates == t.extra_intermediates
        }),
        ({
            let n = changed(t, TrustChange::WebpkiRoots(on));
            &&& n.webpki_roots == Some(on)
            &&& n.native_roots == t.native_roots && n.exclusive == t.exclusive
            &&& n.extra_roots == t.extra_roots && n.extra_intermediates == t.extra_intermediates
        }),
        ({
            let n = changed(t, TrustChange::Exclusive);
            &&& n.exclusive
            &&& n.native_roots == t.native_roots && n.webpki_roots == t.webpki_roots
            &&& n.extra_roots == t.extra_roots && n.extra_intermediates == t.extra_intermediates
        }),
        ({
            let n = changed(t, TrustChange::RootCa(path));
            &&& n.extra_roots == t.extra_roots.push(path@)
            &&& n.extra_intermediates == t.extra_intermediates
            &&& n.native_roots == t.native_roots && n.webpki_roots == t.webpki_roots && n.exclusive
                == t.exclusive
        }),
        ({
            let n = changed(t, TrustChange::Intermediate(path));
            &&& n.extra_intermediates == t.extra_intermediates.push(path@)
            &&& n.extra_roots == t.extra_roots
            &&& n.native_roots == t.native_roots && n.webpki_roots == t.webpki_roots && n.exclusive
                == t.exclusive
        }),
{
}

/// The first change starts from the roots of the operating system, what the build has, and no files;
/// a later one from what was asked for so far.
pub proof fn changes_start_from_what_was_asked(t: TlsTrust)
    ensures
        current(None) == default_trust(),
        current(Some(TlsConfigSource::Explicit)) == default_trust(),
        current(Some(TlsConfigSource::Trust(t))) == trust_of(t),
        source_trust(Some(TlsConfigSource::Trust(t))) == Some(Some(trust_of(t))),
        source_trust(None) is None,
        source_trust(Some(TlsConfigSource::Explicit)) is Some,
        default_trust().native_roots && !default_trust().exclusive,
        default_trust().webpki_roots is None,
        default_trust().extra_roots.len() == 0 && default_trust().extra_intermediates.len() == 0,
        trust_of(t).native_roots == t.native_roots && trust_of(t).exclusive == t.exclusive,
        trust_of(t).webpki_roots == t.webpki_roots,
        trust_of(t).extra_roots.len() == t.extra_roots@.len(),
        forall|i: int|
            0 <= i < t.extra_roots@.len() ==> trust_of(t).extra_roots[i] == (
            #[trigger] t.extra_roots@[i])@,
        trust_of(t).extra_intermediates.len() == t.extra_intermediates@.len(),
        forall|i: int|
            0 <= i < t.extra_intermediates@.len() ==> trust_of(t).extra_intermediates[i] == (
            #[trigger] t.extra_intermediates@[i])@,
{
}

/// A configuration that was resolved is the one that connections are made with, whatever it came from.
pub proof fn resolved_trust_is_used(source: Option<Option<Trust>>)
    ensures
        chosen(source, true) == HttpTls::Resolved,
        source is None ==> chosen(source, false) == HttpTls::Default,
        source is Some ==> chosen(source, false) == HttpTls::FailClosed,
{
}

} // verus!
