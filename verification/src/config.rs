//! Settings: the precision of timestamps, and how the server listens.

use vstd::prelude::*;
use vstd::string::*;

use crate::text;

verus! {

/// The precision of the timestamps.
#[derive(Debug, Clone, Copy, PartialEq, Eq, Structural)]
pub enum Precision {
    Second,
    Millisecond,
    Nanosecond,
}

/// The precision that goes by this abbreviation.
pub open spec fn precision_of(value: Seq<char>) -> Option<Precision> {
    if value == "s"@ {
        Some(Precision::Second)
    } else if value == "ms"@ {
        Some(Precision::Millisecond)
    } else if value == "ns"@ {
        Some(Precision::Nanosecond)
    } else {
        None
    }
}

impl Precision {
    /// The abbreviation of the precision.
    pub open spec fn abbreviation(self) -> Seq<char> {
        match self {
            Precision::Second => "s"@,
            Precision::Millisecond => "ms"@,
            Precision::Nanosecond => "ns"@,
        }
    }

    /// The precision that `value` abbreviates, where it is one of `s`, `ms` and `ns`.
    pub fn recognise(value: &str) -> (r: Option<Precision>)
        ensures
            r == precision_of(value@),
    {
        if text::same_text(value, "s") {
            Some(Precision::Second)
        } else if text::same_text(value, "ms") {
            Some(Precision::Millisecond)
        } else if text::same_text(value, "ns") {
            Some(Precision::Nanosecond)
        } else {
            None
        }
    }

    /// The precision that `value` abbreviates.
    pub fn from(value: String) -> (r: Precision)
        requires
            precision_of(value@) is Some,
        ensures
            precision_of(value@) == Some(r),
    {
        match Precision::recognise(value.as_str()) {
            Some(p) => p,
            None => Precision::Second,
        }
    }

    /// The abbreviation of the precision.
    pub fn to_string(self) -> (r: String)
        ensures
            r@ == self.abbreviation(),
    {
        match self {
            Precision::Second => "s".to_owned(),
            Precision::Millisecond => "ms".to_owned(),
            Precision::Nanosecond => "ns".to_owned(),
        }
    }

    /// Abbreviating a precision and reading the abbreviation gives the precision back.
    pub proof fn law_abbreviation(self)
        ensures
            precision_of(self.abbreviation()) == Some(self),
    {
        reveal_strlit("s");
        reveal_strlit("ms");
        reveal_strlit("ns");
        assert("ms"@[0] != "ns"@[0]);
    }

    /// Reading an abbreviation and abbreviating the precision gives the abbreviation back.
    pub proof fn law_reading(value: Seq<char>)
        requires
            precision_of(value) is Some,
        ensures
            precision_of(value)->0.abbreviation() == value,
    {
    }
}

/// How the server listens.
#[derive(Debug)]
pub enum ServerMode {
    Http,
    Https { cert_file: String, key_file: String },
}

/// Decides how the server listens: with TLS where it is enabled, for which both files must be
/// given. `None` where TLS is enabled and a file is missing.
pub fn server_mode(
    tls_enabled: bool,
    cert_file: Option<String>,
    key_file: Option<String>,
) -> (r: Option<ServerMode>)
    ensures
        r is None <==> tls_enabled && (cert_file is None || key_file is None),
        !tls_enabled ==> r == Some(ServerMode::Http),
        tls_enabled && cert_file is Some && key_file is Some ==> r == Some(
            ServerMode::Https { cert_file: cert_file->0, key_file: key_file->0 },
        ),
{
    if !tls_enabled {
        return Some(ServerMode::Http);
    }
    match (cert_file, key_file) {
        (Some(cert_file), Some(key_file)) => Some(ServerMode::Https { cert_file, key_file }),
        _ => None,
    }
}

// ---------------------------------------------------------------- the Kafka client

/// A setting: its key and its value.
pub type SettingView = (Seq<char>, Seq<char>);

/// The models of the settings.
pub open spec fn setting_views(settings: Seq<(String, String)>) -> Seq<SettingView> {
    settings.map_values(|s: (String, String)| (s.0@, s.1@))
}

/// The settings of the Kafka client: it reads from the end of each partition and commits by itself.
pub open spec fn client_settings_of(group_id: Seq<char>, brokers: Seq<char>) -> Seq<SettingView> {
    seq![
        ("group.id"@, group_id),
        ("bootstrap.servers"@, brokers),
        ("enable.partition.eof"@, "false"@),
        ("session.timeout.ms"@, "30000"@),
        ("enable.auto.commit"@, "true"@),
        ("auto.offset.reset"@, "latest"@),
        ("client.id"@, "kafka-stats"@),
    ]
}

fn push_setting(settings: &mut Vec<(String, String)>, key: &str, value: &str)
    ensures
        setting_views(final(settings)@) == setting_views(old(settings)@).push((key@, value@)),
{
    settings.push((key.to_owned(), value.to_owned()));
    assert(setting_views(settings@) =~= setting_views(old(settings)@).push((key@, value@)));
}

/// The settings of the Kafka client.
pub fn client_settings(group_id: &str, brokers: &str) -> (r: Vec<(String, String)>)
    ensures
        setting_views(r@) == client_settings_of(group_id@, brokers@),
{
    let mut settings: Vec<(String, String)> = Vec::new();
    push_setting(&mut settings, "group.id", group_id);
    push_setting(&mut settings, "bootstrap.servers", brokers);
    push_setting(&mut settings, "enable.partition.eof", "false");
    push_setting(&mut settings, "session.timeout.ms", "30000");
    push_setting(&mut settings, "enable.auto.commit", "true");
    push_setting(&mut settings, "auto.offset.reset", "latest");
    push_setting(&mut settings, "client.id", "kafka-stats");
    assert(setting_views(settings@) =~= client_settings_of(group_id@, brokers@));
    settings
}

} // verus!
