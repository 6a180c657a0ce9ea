//! Saved connection profiles and the checks on a connection form.

use vstd::prelude::*;

use crate::encodings::Encoding;
use crate::text::{
    concat_text, contains_text, decimal, decimal_text, lowercase, lowercase_of, occurs, same_text,
};

verus! {

/// The encoding that a setting names; anything unknown names `Tight`.
pub open spec fn named_encoding(name: Seq<char>) -> Encoding {
    if name == "tight"@ {
        Encoding::Tight
    } else if name == "zrle"@ {
        Encoding::Zrle
    } else if name == "hextile"@ {
        Encoding::Hextile
    } else if name == "raw"@ {
        Encoding::Raw
    } else if name == "copyrect"@ {
        Encoding::CopyRect
    } else if name == "trle"@ {
        Encoding::Trle
    } else if name == "rre"@ {
        Encoding::Rre
    } else if name == "openh264"@ {
        Encoding::OpenH264
    } else {
        Encoding::Tight
    }
}

/// Reads the encoding that a setting in lower case names.
pub fn encoding_of_name(name: &str) -> (r: Encoding)
    ensures
        r == named_encoding(name@),
{
    if same_text(name, "tight") {
        Encoding::Tight
    } else if same_text(name, "zrle") {
        Encoding::Zrle
    } else if same_text(name, "hextile") {
        Encoding::Hextile
    } else if same_text(name, "raw") {
        Encoding::Raw
    } else if same_text(name, "copyrect") {
        Encoding::CopyRect
    } else if same_text(name, "trle") {
        Encoding::Trle
    } else if same_text(name, "rre") {
        Encoding::Rre
    } else if same_text(name, "openh264") {
        Encoding::OpenH264
    } else {
        Encoding::Tight
    }
}

/// The encodings that are offered behind the preferred one.
pub open spec fn fallbacks() -> Seq<Encoding> {
    seq![
        Encoding::Zrle,
        Encoding::Hextile,
        Encoding::CopyRect,
        Encoding::OpenH264,
        Encoding::Raw,
    ]
}

/// The pseudo-encodings that every list ends with.
pub open spec fn pseudo_encodings() -> Seq<Encoding> {
    seq![
        Encoding::DesktopSize,
        Encoding::Cursor,
        Encoding::ContinuousUpdates,
        Encoding::Fence,
    ]
}

/// The encodings of `list` other than `first`, in their order.
pub open spec fn except(list: Seq<Encoding>, first: Encoding) -> Seq<Encoding> {
    list.filter(|e: Encoding| e != first)
}

/// The list that puts `first` in front: then each fallback that it is not,
/// then the pseudo-encodings.
pub open spec fn encodings_after(first: Encoding) -> Seq<Encoding> {
    seq![first] + except(fallbacks(), first) + pseudo_encodings()
}

proof fn lemma_fallbacks(first: Encoding, n: int)
    requires
        0 <= n < 5,
    ensures
        except(fallbacks().take(n + 1), first) == (if fallbacks()[n] != first {
            except(fallbacks().take(n), first).push(fallbacks()[n])
        } else {
            except(fallbacks().take(n), first)
        }),
{
    reveal(Seq::filter);
    assert(fallbacks().take(n + 1).drop_last() =~= fallbacks().take(n));
}

fn push_unless(list: &mut Vec<Encoding>, e: Encoding, first: Encoding)
    ensures
        final(list)@ == (if e != first {
            old(list)@.push(e)
        } else {
            old(list)@
        }),
{
    if e != first {
        list.push(e);
    }
}

/// The list of encodings with `first` in front.
pub fn encoding_list(first: Encoding) -> (r: Vec<Encoding>)
    ensures
        r@ == encodings_after(first),
{
    let mut list: Vec<Encoding> = Vec::new();
    list.push(first);
    push_unless(&mut list, Encoding::Zrle, first);
    push_unless(&mut list, Encoding::Hextile, first);
    push_unless(&mut list, Encoding::CopyRect, first);
    push_unless(&mut list, Encoding::OpenH264, first);
    push_unless(&mut list, Encoding::Raw, first);
    proof {
        assert(except(fallbacks().take(0), first) =~= Seq::empty()) by {
            reveal(Seq::filter);
        }
        lemma_fallbacks(first, 0);
        lemma_fallbacks(first, 1);
        lemma_fallbacks(first, 2);
        lemma_fallbacks(first, 3);
        lemma_fallbacks(first, 4);
        assert(fallbacks().take(5) =~= fallbacks());
        assert(list@ =~= seq![first] + except(fallbacks(), first));
    }
    list.push(Encoding::DesktopSize);
    list.push(Encoding::Cursor);
    list.push(Encoding::ContinuousUpdates);
    list.push(Encoding::Fence);
    assert(list@ =~= encodings_after(first));
    list
}

/// The encodings to announce for the setting `preferred`, whatever its case.
pub fn build_encoding_list(preferred: &str) -> (r: Vec<Encoding>)
    ensures
        r@ == encodings_after(named_encoding(lowercase_of(preferred@))),
{
    let name = lowercase(preferred);
    encoding_list(encoding_of_name(name.as_str()))
}

/// Whatever the preference, no encoding is announced twice, `Raw` is
/// announced, and the preferred encoding comes first.
pub proof fn lemma_list_has_raw_and_no_duplicates(preferred: Seq<char>)
    ensures
        encodings_after(named_encoding(preferred))[0] == named_encoding(preferred),
        encodings_after(named_encoding(preferred)).contains(Encoding::Raw),
        encodings_after(named_encoding(preferred)).no_duplicates(),
{
    let first = named_encoding(preferred);
    assert(except(fallbacks().take(0), first) =~= Seq::empty()) by {
        reveal(Seq::filter);
    }
    lemma_fallbacks(first, 0);
    lemma_fallbacks(first, 1);
    lemma_fallbacks(first, 2);
    lemma_fallbacks(first, 3);
    lemma_fallbacks(first, 4);
    assert(fallbacks().take(5) =~= fallbacks());
    let kept = except(fallbacks(), first);
    let list = encodings_after(first);
    assert(list == seq![first] + kept + pseudo_encodings());
    if first == Encoding::Raw {
        assert(list[0] == Encoding::Raw);
    } else {
        assert(kept.last() == Encoding::Raw);
        assert(list[kept.len() as int] == Encoding::Raw);
    }
}

/// A saved connection. Passwords are not part of it.
#[derive(Debug, Clone, Default)]
pub struct HistoryEntry {
    pub host: String,
    pub port: u32,
    pub username: String,
    pub auth_method: String,
    pub use_tls: bool,
    pub preferred_encoding: String,
    pub high_performance: bool,
    pub media_stream_h264: bool,
}

impl HistoryEntry {
    /// The address by which the entry is known.
    pub open spec fn address(self) -> Seq<char> {
        self.host@ + ":"@ + decimal_text(self.port as nat)
    }

    /// Writes the host and the port.
    pub fn summary(&self) -> (r: String)
        ensures
            r@ == self.address(),
    {
        concat_text(
            concat_text(self.host.as_str(), ":").as_str(),
            decimal(self.port as u64).as_str(),
        )
    }

    /// Writes the way of authentication, the transport and the preferred
    /// encoding.
    pub fn detail(&self) -> (r: String)
        ensures
            r@ == self.auth_method@ + " | "@ + (if self.use_tls {
                "TLS"@
            } else {
                "PLAIN"@
            }) + " | "@ + self.preferred_encoding@,
    {
        let transport = if self.use_tls {
            "TLS"
        } else {
            "PLAIN"
        };
        let head = concat_text(concat_text(self.auth_method.as_str(), " | ").as_str(), transport);
        concat_text(
            concat_text(head.as_str(), " | ").as_str(),
            self.preferred_encoding.as_str(),
        )
    }
}

/// The entries whose address is not `address`, in their order.
pub open spec fn others(history: Seq<HistoryEntry>, address: Seq<char>) -> Seq<HistoryEntry> {
    history.filter(|e: HistoryEntry| e.address() != address)
}

/// Drops the entries with the address `summary`.
pub fn remove_history_entry(history: &mut Vec<HistoryEntry>, summary: &str)
    ensures
        final(history)@ == others(old(history)@, summary@),
{
    let ghost all = history@;
    let ghost keep = |e: HistoryEntry| e.address() != summary@;
    let ghost mut done: int = 0;
    let mut i: usize = 0;
    assert(all.take(0).filter(keep) =~= Seq::empty()) by {
        reveal(Seq::filter);
    }
    assert(all.skip(0) =~= all);
    while i < history.len()
        invariant
            0 <= done <= all.len(),
            keep == (|e: HistoryEntry| e.address() != summary@),
            i == all.take(done).filter(keep).len(),
            history@ == all.take(done).filter(keep) + all.skip(done),
        decreases history@.len() - i,
    {
        let ghost kept = all.take(done).filter(keep);
        assert(history@[i as int] == all[done]);
        proof {
            assert(all.take(done + 1).drop_last() =~= all.take(done));
            assert(all.take(done + 1).filter(keep) == (if keep(all[done]) {
                kept.push(all[done])
            } else {
                kept
            })) by {
                reveal(Seq::filter);
            }
        }
        let address = history[i].summary();
        if same_text(address.as_str(), summary) {
            history.remove(i);
            assert(history@ =~= kept + all.skip(done + 1));
        } else {
            i = i + 1;
            assert(history@ =~= kept.push(all[done]) + all.skip(done + 1));
        }
        proof {
            done = done + 1;
        }
    }
    assert(done == all.len());
    assert(all.take(done) =~= all);
    assert(history@ =~= all.filter(keep));
}

/// The history after a connection to the address of `entry`.
pub open spec fn with_entry(history: Seq<HistoryEntry>, entry: HistoryEntry) -> Seq<HistoryEntry> {
    seq![entry] + others(history, entry.address())
}

/// Puts `entry` in front and drops the older entries with its address.
pub fn add_history_entry(history: &mut Vec<HistoryEntry>, entry: HistoryEntry)
    ensures
        final(history)@ == with_entry(old(history)@, entry),
{
    let address = entry.summary();
    remove_history_entry(history, address.as_str());
    history.insert(0, entry);
    assert(history@ =~= with_entry(old(history)@, entry));
}

/// Whether no two entries have the same address.
pub open spec fn distinct(history: Seq<HistoryEntry>) -> bool {
    forall|i: int, j: int|
        0 <= i < j < history.len() ==> #[trigger] history[i].address()
            != #[trigger] history[j].address()
}

proof fn lemma_others(history: Seq<HistoryEntry>, address: Seq<char>)
    ensures
        forall|i: int|
            0 <= i < others(history, address).len() ==> history.contains(
                #[trigger] others(history, address)[i],
            ) && others(history, address)[i].address() != address,
        distinct(history) ==> distinct(others(history, address)),
    decreases history.len(),
{
    reveal(Seq::filter);
    let kept = others(history, address);
    if history.len() > 0 {
        let rest = history.drop_last();
        lemma_others(rest, address);
        let before = others(rest, address);
        assert(kept == (if history.last().address() != address {
            before.push(history.last())
        } else {
            before
        }));
        assert forall|i: int| 0 <= i < kept.len() implies history.contains(
            #[trigger] kept[i],
        ) && kept[i].address() != address by {
            if i < before.len() {
                assert(rest.contains(before[i]));
                let k = choose|k: int| 0 <= k < rest.len() && rest[k] == before[i];
                assert(history[k] == kept[i]);
            } else {
                assert(kept[i] == history[history.len() - 1]);
            }
        }
        if distinct(history) {
            assert forall|i: int, j: int| 0 <= i < j < rest.len() implies #[trigger] rest[i].address()
                != #[trigger] rest[j].address() by {
                assert(history[i].address() != history[j].address());
            }
            assert forall|i: int, j: int| 0 <= i < j < kept.len() implies #[trigger] kept[i].address()
                != #[trigger] kept[j].address() by {
                if j < before.len() {
                    assert(before[i].address() != before[j].address());
                } else {
                    assert(rest.contains(before[i]));
                    let k = choose|k: int| 0 <= k < rest.len() && rest[k] == before[i];
                    assert(history[k].address() != history[history.len() - 1].address());
                }
            }
        }
    }
}

/// A history without duplicate addresses stays so when a connection is
/// added, and the latest connection is its first entry.
pub proof fn lemma_history_stays_distinct(history: Seq<HistoryEntry>, entry: HistoryEntry)
    requires
        distinct(history),
    ensures
        distinct(with_entry(history, entry)),
        with_entry(history, entry)[0] == entry,
{
    lemma_others(history, entry.address());
    let kept = others(history, entry.address());
    let list = with_entry(history, entry);
    assert forall|i: int, j: int| 0 <= i < j < list.len() implies #[trigger] list[i].address()
        != #[trigger] list[j].address() by {
        assert(list[j] == kept[j - 1]);
        if i > 0 {
            assert(list[i] == kept[i - 1]);
            assert(kept[i - 1].address() != kept[j - 1].address());
        }
    }
}

/// Removing the address of an entry that was just added leaves the other
/// entries, as removing it beforehand would.
pub proof fn lemma_remove_undoes_add(history: Seq<HistoryEntry>, entry: HistoryEntry)
    ensures
        others(with_entry(history, entry), entry.address()) == others(history, entry.address()),
{
    let address = entry.address();
    lemma_filter_twice(history, address);
    assert(others(seq![entry], address) =~= Seq::empty()) by {
        reveal(Seq::filter);
        assert(seq![entry].drop_last() =~= Seq::empty());
        assert(others(Seq::empty(), address) =~= Seq::empty());
    }
    lemma_filter_concat(seq![entry], others(history, address), address);
}

proof fn lemma_filter_concat(a: Seq<HistoryEntry>, b: Seq<HistoryEntry>, address: Seq<char>)
    ensures
        others(a + b, address) == others(a, address) + others(b, address),
    decreases b.len(),
{
    reveal(Seq::filter);
    if b.len() == 0 {
        assert(a + b =~= a);
        assert(others(a, address) + others(b, address) =~= others(a, address));
    } else {
        lemma_filter_concat(a, b.drop_last(), address);
        assert((a + b).drop_last() =~= a + b.drop_last());
        assert(others(a + b, address) =~= others(a, address) + others(b, address));
    }
}

proof fn lemma_filter_twice(history: Seq<HistoryEntry>, address: Seq<char>)
    ensures
        others(others(history, address), address) == others(history, address),
    decreases history.len(),
{
    reveal(Seq::filter);
    if history.len() > 0 {
        let before = others(history.drop_last(), address);
        lemma_filter_twice(history.drop_last(), address);
        if history.last().address() != address {
            assert(before.push(history.last()).drop_last() =~= before);
        }
    }
}

/// The ways to authenticate that the connection form offers.
#[derive(Debug, Clone, Copy, PartialEq, Eq, Structural)]
pub enum AuthMethod {
    NoAuth,
    Password,
    AppleDh,
    Vencrypt,
}

impl AuthMethod {
    /// The name of the method in the settings.
    pub open spec fn named(self) -> Seq<char> {
        match self {
            AuthMethod::NoAuth => "none"@,
            AuthMethod::Password => "password"@,
            AuthMethod::AppleDh => "apple-dh"@,
            AuthMethod::Vencrypt => "vencrypt"@,
        }
    }

    /// The RFB security type of the method.
    pub open spec fn security_type(self) -> u8 {
        match self {
            AuthMethod::NoAuth => 1,
            AuthMethod::Password => 2,
            AuthMethod::AppleDh => 30,
            AuthMethod::Vencrypt => 19,
        }
    }

    /// The name of the method in the settings.
    pub fn name(&self) -> (r: &'static str)
        ensures
            r@ == self.named(),
    {
        match self {
            AuthMethod::NoAuth => "none",
            AuthMethod::Password => "password",
            AuthMethod::AppleDh => "apple-dh",
            AuthMethod::Vencrypt => "vencrypt",
        }
    }
}

/// Whether a method asks for a user name and a password in the form.
pub fn requires_credentials(method: &str) -> (r: bool)
    ensures
        r == (method@ == AuthMethod::Password.named() || method@ == AuthMethod::AppleDh.named()),
{
    same_text(method, "password") || same_text(method, "apple-dh")
}

/// The methods of the form, in its order.
pub open spec fn all_methods() -> Seq<AuthMethod> {
    seq![AuthMethod::NoAuth, AuthMethod::Password, AuthMethod::AppleDh, AuthMethod::Vencrypt]
}

/// The methods whose security type the server offers, or `NoAuth` alone where
/// it offers none of them.
pub open spec fn offered_methods(types: Seq<u8>) -> Seq<AuthMethod> {
    let usable = all_methods().filter(|m: AuthMethod| types.contains(m.security_type()));
    if usable.len() == 0 {
        seq![AuthMethod::NoAuth]
    } else {
        usable
    }
}

proof fn lemma_methods(types: Seq<u8>, n: int)
    requires
        0 <= n < 4,
    ensures
        all_methods().take(n + 1).filter(|m: AuthMethod| types.contains(m.security_type())) == (
        if types.contains(all_methods()[n].security_type()) {
            all_methods().take(n).filter(
                |m: AuthMethod| types.contains(m.security_type()),
            ).push(all_methods()[n])
        } else {
            all_methods().take(n).filter(|m: AuthMethod| types.contains(m.security_type()))
        }),
{
    reveal(Seq::filter);
    assert(all_methods().take(n + 1).drop_last() =~= all_methods().take(n));
}

fn has_type(types: &[u8], t: u8) -> (r: bool)
    ensures
        r == types@.contains(t),
{
    let n: usize = types.len();
    let mut i: usize = 0;
    while i < n
        invariant
            n == types@.len(),
            i <= n,
            forall|k: int| 0 <= k < i ==> types@[k] != t,
        decreases n - i,
    {
        if types[i] == t {
            assert(types@[i as int] == t);
            return true;
        }
        i = i + 1;
    }
    false
}

/// What the row for the authentication method shows.
pub struct AuthRow {
    /// The methods to choose from
    pub options: Vec<AuthMethod>,
    /// The position of the chosen one
    pub selected: usize,
    /// What to store as the setting, where it has to change
    pub setting: Option<AuthMethod>,
}

/// Whether `i` is the first position in `options` of a method with the name
/// `current`.
pub open spec fn first_named(options: Seq<AuthMethod>, current: Seq<char>, i: int) -> bool {
    &&& 0 <= i < options.len()
    &&& options[i].named() == current
    &&& forall|k: int| 0 <= k < i ==> #[trigger] options[k].named() != current
}

/// The row after a server has offered `supported_types`: the methods among
/// them, with the current setting chosen where it is one of them. Otherwise
/// the first method is chosen and becomes the setting.
pub fn update_auth_row_from_supported_types(supported_types: &[u8], current: &str) -> (r: AuthRow)
    ensures
        r.options@ == offered_methods(supported_types@),
        r.selected < r.options@.len(),
        r.setting is None ==> first_named(r.options@, current@, r.selected as int),
        r.setting matches Some(m) ==> r.selected == 0 && m == r.options@[0],
        r.setting is Some <==> forall|k: int|
            0 <= k < r.options@.len() ==> #[trigger] r.options@[k].named() != current@,
{
    let ghost types = supported_types@;
    let mut options: Vec<AuthMethod> = Vec::new();
    if has_type(supported_types, 1) {
        options.push(AuthMethod::NoAuth);
    }
    if has_type(supported_types, 2) {
        options.push(AuthMethod::Password);
    }
    if has_type(supported_types, 30) {
        options.push(AuthMethod::AppleDh);
    }
    if has_type(supported_types, 19) {
        options.push(AuthMethod::Vencrypt);
    }
    proof {
        let usable = |m: AuthMethod| types.contains(m.security_type());
        assert(all_methods().take(0).filter(usable) =~= Seq::empty()) by {
            reveal(Seq::filter);
        }
        lemma_methods(types, 0);
        lemma_methods(types, 1);
        lemma_methods(types, 2);
        lemma_methods(types, 3);
        assert(all_methods().take(4) =~= all_methods());
        assert(options@ =~= all_methods().filter(usable));
    }
    if options.len() == 0 {
        options.push(AuthMethod::NoAuth);
        assert(options@ =~= seq![AuthMethod::NoAuth]);
    }
    let n: usize = options.len();
    let mut i: usize = 0;
    while i < n
        invariant
            n == options@.len(),
            i <= n,
            options@ == offered_methods(supported_types@),
            forall|k: int| 0 <= k < i ==> #[trigger] options@[k].named() != current@,
        decreases n - i,
    {
        if same_text(options[i].name(), current) {
            assert(options@[i as int].named() == current@);
            return AuthRow { options, selected: i, setting: None };
        }
        i = i + 1;
    }
    let first = options[0];
    AuthRow { options, selected: 0, setting: Some(first) }
}

/// The position that a row of `options` shows for the setting `current`: where
/// the setting stands first, or the first position if it does not.
pub fn combo_row_for_settings(options: &[&str], current: &str) -> (r: usize)
    ensures
        (exists|k: int| 0 <= k < options@.len() && #[trigger] options@[k]@ == current@) ==> r
            < options@.len() && options@[r as int]@ == current@ && forall|k: int|
            0 <= k < r ==> #[trigger] options@[k]@ != current@,
        (forall|k: int| 0 <= k < options@.len() ==> #[trigger] options@[k]@ != current@) ==> r == 0,
{
    let n: usize = options.len();
    let mut i: usize = 0;
    while i < n
        invariant
            n == options@.len(),
            i <= n,
            forall|k: int| 0 <= k < i ==> #[trigger] options@[k]@ != current@,
        decreases n - i,
    {
        if same_text(options[i], current) {
            assert(options@[i as int]@ == current@);
            return i;
        }
        i = i + 1;
    }
    0
}

/// Why a connection form cannot be used.
#[derive(Debug, Clone, Copy, PartialEq, Eq, Structural)]
pub enum FormError {
    HostEmpty,
    PasswordMissing,
    AppleUsernameMissing,
    ApplePasswordMissing,
    VencryptUnsupported,
    UnknownMethod,
}

impl FormError {
    /// The message for the user.
    pub open spec fn text(self) -> Seq<char> {
        match self {
            FormError::HostEmpty => "Host cannot be empty"@,
            FormError::PasswordMissing => "Password is required"@,
            FormError::AppleUsernameMissing => "Username is required for Apple Remote Desktop"@,
            FormError::ApplePasswordMissing => "Password is required for Apple Remote Desktop"@,
            FormError::VencryptUnsupported => "VeNCrypt authentication is not yet supported"@,
            FormError::UnknownMethod => "Unknown authentication method"@,
        }
    }

    /// The message for the user.
    pub fn message(&self) -> (r: &'static str)
        ensures
            r@ == self.text(),
    {
        match self {
            FormError::HostEmpty => "Host cannot be empty",
            FormError::PasswordMissing => "Password is required",
            FormError::AppleUsernameMissing => "Username is required for Apple Remote Desktop",
            FormError::ApplePasswordMissing => "Password is required for Apple Remote Desktop",
            FormError::VencryptUnsupported => "VeNCrypt authentication is not yet supported",
            FormError::UnknownMethod => "Unknown authentication method",
        }
    }
}

/// The method with which a filled-in form connects, or what is wrong with it.
pub open spec fn form_outcome(
    host: Seq<char>,
    method: Seq<char>,
    username: Seq<char>,
    password: Seq<char>,
) -> Result<AuthMethod, FormError> {
    if host.len() == 0 {
        Err(FormError::HostEmpty)
    } else if method == AuthMethod::Password.named() {
        if password.len() == 0 {
            Err(FormError::PasswordMissing)
        } else {
            Ok(AuthMethod::Password)
        }
    } else if method == AuthMethod::AppleDh.named() {
        if username.len() == 0 {
            Err(FormError::AppleUsernameMissing)
        } else if password.len() == 0 {
            Err(FormError::ApplePasswordMissing)
        } else {
            Ok(AuthMethod::AppleDh)
        }
    } else if method == AuthMethod::NoAuth.named() {
        Ok(AuthMethod::NoAuth)
    } else if method == AuthMethod::Vencrypt.named() {
        Err(FormError::VencryptUnsupported)
    } else {
        Err(FormError::UnknownMethod)
    }
}

/// Checks a filled-in connection form.
pub fn check_form(host: &str, method: &str, username: &str, password: &str) -> (r: Result<
    AuthMethod,
    FormError,
>)
    ensures
        r == form_outcome(host@, method@, username@, password@),
{
    if host.unicode_len() == 0 {
        Err(FormError::HostEmpty)
    } else if same_text(method, "password") {
        if password.unicode_len() == 0 {
            Err(FormError::PasswordMissing)
        } else {
            Ok(AuthMethod::Password)
        }
    } else if same_text(method, "apple-dh") {
        if username.unicode_len() == 0 {
            Err(FormError::AppleUsernameMissing)
        } else if password.unicode_len() == 0 {
            Err(FormError::ApplePasswordMissing)
        } else {
            Ok(AuthMethod::AppleDh)
        }
    } else if same_text(method, "none") {
        Ok(AuthMethod::NoAuth)
    } else if same_text(method, "vencrypt") {
        Err(FormError::VencryptUnsupported)
    } else {
        Err(FormError::UnknownMethod)
    }
}

/// The method for the credentials that a caller has given: a user name and a
/// password for Apple's, a password alone for VNC's, none otherwise.
pub fn method_for_credentials(username: bool, password: bool) -> (r: AuthMethod)
    ensures
        r == (if password {
            if username {
                AuthMethod::AppleDh
            } else {
                AuthMethod::Password
            }
        } else {
            AuthMethod::NoAuth
        }),
{
    if password {
        if username {
            AuthMethod::AppleDh
        } else {
            AuthMethod::Password
        }
    } else {
        AuthMethod::NoAuth
    }
}

/// Whether a message reports that the media stream did not start.
pub open spec fn is_media_failure(msg: Seq<char>) -> bool {
    occurs(msg, "Failed to start media stream"@)
}

/// The message for the user about a media stream that did not start, or `None`
/// where the error is another one. The connection goes on without the stream.
pub fn media_stream_error_message(msg: &str) -> (r: Option<&'static str>)
    ensures
        r is Some <==> is_media_failure(msg@),
        r matches Some(m) ==> m@ == (if occurs(msg@, "avdec_h264"@) || occurs(
            msg@,
            "Pipeline creation failed"@,
        ) {
            "H.264 media stream unavailable: the GStreamer decoder plugin (avdec_h264) is failed to load."@
        } else {
            "H.264 media stream unavailable; the connection will continue in standard RFB mode."@
        }),
{
    if !contains_text(msg, "Failed to start media stream") {
        return None;
    }
    if contains_text(msg, "avdec_h264") || contains_text(msg, "Pipeline creation failed") {
        Some(
            "H.264 media stream unavailable: the GStreamer decoder plugin (avdec_h264) is failed to load.",
        )
    } else {
        Some("H.264 media stream unavailable; the connection will continue in standard RFB mode.")
    }
}

} // verus!
