//! The option resolver: reads the `builder` attributes of one field.
//!
//! The arguments of `#[builder(...)]` are a comma-separated list of entries.
//! An entry starts with a path (`optional`, `each`, `a::b`, `::c`); `optional`
//! stands alone, `each` is followed by a parenthesized string literal that
//! holds an identifier. A trailing comma is accepted, and an empty list sets
//! no option; a lone comma is not accepted.
use vstd::prelude::*;
use crate::schema::{AttrArgs, Attribute, Delim, Token};

verus! {

/// The options of one field, as read from its attributes.
#[derive(Debug, PartialEq, Eq)]
pub struct FieldOptions {
    pub optional: bool,
    /// The name of the per-element setter of an accumulating field.
    pub each: Option<String>,
}

/// The model of [`FieldOptions`].
pub struct OptionsView {
    pub optional: bool,
    pub each: Option<Seq<char>>,
}

impl View for FieldOptions {
    type V = OptionsView;

    open spec fn view(&self) -> OptionsView {
        OptionsView {
            optional: self.optional,
            each: match self.each {
                Some(s) => Some(s@),
                None => None,
            },
        }
    }
}

/// Why the options of a field could not be read.
#[derive(PartialEq, Eq, Structural, Clone, Copy, Debug)]
pub enum OptionError {
    /// An entry whose key is neither `optional` nor `each`.
    Unrecognized,
    /// Arguments that do not follow the grammar above.
    Malformed,
}

/// Whether the character has the Unicode property XID_Start.
pub uninterp spec fn xid_start(c: char) -> bool;

/// Whether the character has the Unicode property XID_Continue.
pub uninterp spec fn xid_continue(c: char) -> bool;

/// XID_Start: for ASCII exactly the letters, else as the tables say.
pub open spec fn ident_start(c: char) -> bool {
    if (c as u32) < 128 {
        'a' <= c <= 'z' || 'A' <= c <= 'Z'
    } else {
        xid_start(c)
    }
}

/// XID_Continue: for ASCII exactly the letters, the digits and `_`, else as
/// the tables say.
pub open spec fn ident_continue(c: char) -> bool {
    if (c as u32) < 128 {
        'a' <= c <= 'z' || 'A' <= c <= 'Z' || '0' <= c <= '9' || c == '_'
    } else {
        xid_continue(c)
    }
}

/// Relies on `unicode_ident::is_xid_start`: an ASCII bit mask that holds the
/// letters, and for other characters a lookup in fixed tables.
#[verifier::external_body]
fn char_is_xid_start(c: char) -> (r: bool)
    ensures
        (c as u32) < 128 ==> (r <==> ('a' <= c <= 'z' || 'A' <= c <= 'Z')),
        (c as u32) >= 128 ==> r == xid_start(c),
{
    unicode_ident::is_xid_start(c)
}

/// Relies on `unicode_ident::is_xid_continue`: an ASCII bit mask that holds
/// the letters, the digits and `_`, and for other characters a lookup in
/// fixed tables.
#[verifier::external_body]
fn char_is_xid_continue(c: char) -> (r: bool)
    ensures
        (c as u32) < 128 ==> (r <==> ('a' <= c <= 'z' || 'A' <= c <= 'Z' || '0' <= c <= '9' || c == '_')),
        (c as u32) >= 128 ==> r == xid_continue(c),
{
    unicode_ident::is_xid_continue(c)
}

/// The text is one identifier: a first character that is `_` or XID_Start,
/// then XID_Continue characters only.
pub open spec fn is_identifier(s: Seq<char>) -> bool {
    &&& s.len() > 0
    &&& (s[0] == '_' || ident_start(s[0]))
    &&& forall|k: int| 1 <= k < s.len() ==> ident_continue(#[trigger] s[k])
}

/// Whether the text is one identifier, as [`is_identifier`] states.
pub fn is_identifier_text(s: &str) -> (r: bool)
    ensures
        r == is_identifier(s@),
{
    let n = s.unicode_len();
    if n == 0 {
        return false;
    }
    let first = s.get_char(0);
    if !(first == '_' || char_is_xid_start(first)) {
        return false;
    }
    let mut i: usize = 1;
    while i < n
        invariant
            n == s@.len(),
            1 <= i <= n,
            forall|k: int| 1 <= k < i ==> ident_continue(#[trigger] s@[k]),
        decreases n - i,
    {
        if !char_is_xid_continue(s.get_char(i)) {
            return false;
        }
        i = i + 1;
    }
    true
}

pub open spec fn no_options() -> OptionsView {
    OptionsView { optional: false, each: None }
}

pub open spec fn is_punct(t: Token, c: char) -> bool {
    match t {
        Token::Punct(d, _) => d == c,
        _ => false,
    }
}

pub open spec fn is_ident(t: Token) -> bool {
    t is Ident
}

pub open spec fn ident_text(t: Token) -> Seq<char> {
    match t {
        Token::Ident(s) => s@,
        _ => Seq::empty(),
    }
}

/// A `::` starts at position `j`.
pub open spec fn path_sep_at(toks: Seq<Token>, j: int) -> bool {
    &&& 0 <= j
    &&& j + 1 < toks.len()
    &&& toks[j] == Token::Punct(':', true)
    &&& is_punct(toks[j + 1], ':')
}

/// The number of `:: ident` pairs that follow from position `j`, or `None`
/// where a `::` is not followed by an identifier.
pub open spec fn extra_segments(toks: Seq<Token>, j: int) -> Option<nat>
    decreases toks.len() - j,
{
    if path_sep_at(toks, j) {
        if j + 2 < toks.len() && is_ident(toks[j + 2]) {
            match extra_segments(toks, j + 3) {
                Some(k) => Some(k + 1),
                None => None,
            }
        } else {
            None
        }
    } else {
        Some(0)
    }
}

/// The path that starts at `i`: the position of its first identifier,
/// whether it is that identifier alone, and the position after it.
pub open spec fn meta_path(toks: Seq<Token>, i: int) -> Option<(int, bool, int)> {
    let lead = if path_sep_at(toks, i) { i + 2 } else { i };
    if 0 <= lead < toks.len() && is_ident(toks[lead]) {
        match extra_segments(toks, lead + 1) {
            Some(k) => Some((lead, lead == i && k == 0, lead + 1 + 3 * k)),
            None => None,
        }
    } else {
        None
    }
}

/// The setter name in `("name")` at position `e`.
pub open spec fn each_payload(toks: Seq<Token>, e: int) -> Option<Seq<char>> {
    if 0 <= e < toks.len() {
        match toks[e] {
            Token::Group(Delim::Paren, inner) => {
                if inner@.len() == 1 {
                    match inner@[0] {
                        Token::Str(s) => if is_identifier(s@) { Some(s@) } else { None },
                        _ => None,
                    }
                } else {
                    None
                }
            },
            _ => None,
        }
    } else {
        None
    }
}

/// The entry at `i`: the options after it and the position after it.
pub open spec fn entry_at(toks: Seq<Token>, i: int, acc: OptionsView) -> Result<(OptionsView, int), OptionError> {
    match meta_path(toks, i) {
        None => Err(OptionError::Malformed),
        Some((lead, single, e)) => {
            if single && ident_text(toks[lead]) == "optional"@ {
                Ok((OptionsView { optional: true, each: acc.each }, e))
            } else if single && ident_text(toks[lead]) == "each"@ {
                match each_payload(toks, e) {
                    Some(n) => Ok((OptionsView { optional: acc.optional, each: Some(n) }, e + 1)),
                    None => Err(OptionError::Malformed),
                }
            } else {
                Err(OptionError::Unrecognized)
            }
        },
    }
}

/// The options after the entries from position `i` on, starting from `acc`.
pub open spec fn entries_from(toks: Seq<Token>, i: int, acc: OptionsView) -> Result<OptionsView, OptionError>
    decreases toks.len() - i,
    via entries_from_decreases
{
    if i < 0 || i >= toks.len() {
        Err(OptionError::Malformed)
    } else {
        match entry_at(toks, i, acc) {
            Err(x) => Err(x),
            Ok((next, j)) => {
                if j >= toks.len() {
                    Ok(next)
                } else if !is_punct(toks[j], ',') {
                    Err(OptionError::Malformed)
                } else if j + 1 >= toks.len() {
                    Ok(next)
                } else {
                    entries_from(toks, j + 1, next)
                }
            },
        }
    }
}

#[via_fn]
proof fn entries_from_decreases(toks: Seq<Token>, i: int, acc: OptionsView) {
    if 0 <= i < toks.len() {
        if let Ok((next, j)) = entry_at(toks, i, acc) {
            if let Some((lead, single, e)) = meta_path(toks, i) {
                assert(e > i);
            }
        }
    }
}

/// The options after the entries of one argument list: an empty list leaves
/// `acc` as it is.
pub open spec fn list_options(toks: Seq<Token>, acc: OptionsView) -> Result<OptionsView, OptionError> {
    if toks.len() == 0 {
        Ok(acc)
    } else {
        entries_from(toks, 0, acc)
    }
}

/// The options after one attribute, starting from `acc`: attributes with
/// another path are left to other consumers.
pub open spec fn apply_attr(a: Attribute, acc: OptionsView) -> Result<OptionsView, OptionError> {
    if a.path@ == "builder"@ {
        match a.args {
            AttrArgs::List(toks) => list_options(toks@, acc),
            _ => Err(OptionError::Malformed),
        }
    } else {
        Ok(acc)
    }
}

/// The options after the first `n` attributes.
pub open spec fn resolve_upto(attrs: Seq<Attribute>, n: int) -> Result<OptionsView, OptionError>
    decreases n,
{
    if n <= 0 {
        Ok(no_options())
    } else {
        match resolve_upto(attrs, n - 1) {
            Err(x) => Err(x),
            Ok(acc) => apply_attr(attrs[n - 1], acc),
        }
    }
}

/// The options of a field with these attributes.
pub open spec fn resolve_spec(attrs: Seq<Attribute>) -> Result<OptionsView, OptionError> {
    resolve_upto(attrs, attrs.len() as int)
}

/// The entry at `i` is well formed and followed by a comma and another entry:
/// the position of that entry and the options after the one at `i`.
pub open spec fn next_entry(toks: Seq<Token>, i: int, acc: OptionsView) -> Option<(int, OptionsView)> {
    match entry_at(toks, i, acc) {
        Ok((next, j)) => if 0 <= j && j + 1 < toks.len() && is_punct(toks[j], ',') {
            Some((j + 1, next))
        } else {
            None
        },
        Err(_) => None,
    }
}

/// The position of the entry after `n` well-formed entries from position `i`,
/// with the options they leave.
pub open spec fn entry_after(toks: Seq<Token>, i: int, acc: OptionsView, n: nat) -> Option<(int, OptionsView)>
    decreases n,
{
    if n == 0 {
        Some((i, acc))
    } else {
        match next_entry(toks, i, acc) {
            Some((j, a)) => entry_after(toks, j, a, (n - 1) as nat),
            None => None,
        }
    }
}

/// The key of the entry at `i` is a path other than `optional` and `each`.
pub open spec fn unknown_key_at(toks: Seq<Token>, i: int) -> bool {
    match meta_path(toks, i) {
        Some((lead, single, _)) => !(single && (ident_text(toks[lead]) == "optional"@ || ident_text(toks[lead])
            == "each"@)),
        None => false,
    }
}

/// An entry with an unknown key, after any number of well-formed entries,
/// makes the whole attribute fail as unrecognized.
pub proof fn law_unknown_key_in_list(toks: Seq<Token>, i: int, acc: OptionsView, n: nat)
    requires
        0 <= i < toks.len(),
        entry_after(toks, i, acc, n) matches Some((k, _)) && unknown_key_at(toks, k),
    ensures
        entries_from(toks, i, acc) == Err::<OptionsView, OptionError>(OptionError::Unrecognized),
    decreases n,
{
    if n > 0 {
        let (j, a) = next_entry(toks, i, acc)->Some_0;
        law_unknown_key_in_list(toks, j, a, (n - 1) as nat);
    }
}

/// An unknown key in any `builder` attribute of a field, after well-formed
/// entries and attributes, makes the field's options fail as unrecognized.
pub proof fn law_unknown_key_in_field(attrs: Seq<Attribute>, m: int, n: nat)
    requires
        0 <= m < attrs.len(),
        resolve_upto(attrs, m) is Ok,
        attrs[m].path@ == "builder"@,
        attrs[m].args matches AttrArgs::List(toks) && toks@.len() > 0 && (entry_after(
            toks@,
            0,
            resolve_upto(attrs, m)->Ok_0,
            n,
        ) matches Some((k, _)) && unknown_key_at(toks@, k)),
    ensures
        resolve_spec(attrs) == Err::<OptionsView, OptionError>(OptionError::Unrecognized),
{
    if let AttrArgs::List(toks) = attrs[m].args {
        law_unknown_key_in_list(toks@, 0, resolve_upto(attrs, m)->Ok_0, n);
    }
    lemma_error_sticks(attrs, m + 1, attrs.len() as int);
}

/// Whether two texts are equal.
pub fn same_text(a: &str, b: &str) -> (r: bool)
    ensures
        r == (a@ == b@),
{
    let n = a.unicode_len();
    if n != b.unicode_len() {
        return false;
    }
    let mut i: usize = 0;
    while i < n
        invariant
            n == a@.len(),
            n == b@.len(),
            i <= n,
            forall|k: int| 0 <= k < i ==> a@[k] == b@[k],
        decreases n - i,
    {
        if a.get_char(i) != b.get_char(i) {
            return false;
        }
        i = i + 1;
    }
    assert(a@ =~= b@);
    true
}


fn punct_is(t: &Token, c: char) -> (r: bool)
    ensures
        r == is_punct(*t, c),
{
    match t {
        Token::Punct(d, _) => *d == c,
        _ => false,
    }
}

fn path_sep(toks: &Vec<Token>, j: usize) -> (r: bool)
    ensures
        r == path_sep_at(toks@, j as int),
{
    if j < toks.len() && j + 1 < toks.len() {
        match &toks[j] {
            Token::Punct(':', true) => punct_is(&toks[j + 1], ':'),
            _ => false,
        }
    } else {
        false
    }
}

/// Reads the path that starts at `i`, as [`meta_path`] states.
fn read_path(toks: &Vec<Token>, i: usize) -> (r: Option<(usize, bool, usize)>)
    ensures
        match (r, meta_path(toks@, i as int)) {
            (Some((a, b, c)), Some((x, y, z))) => a == x && b == y && c == z,
            (None, None) => true,
            _ => false,
        },
        r matches Some((a, b, c)) ==> a < c <= toks@.len(),
{
    let len = toks.len();
    let lead = if path_sep(toks, i) { i + 2 } else { i };
    if lead >= toks.len() {
        return None;
    }
    match &toks[lead] {
        Token::Ident(_) => {},
        _ => return None,
    }
    let mut j: usize = lead + 1;
    let ghost mut count: nat = 0;
    while path_sep(toks, j)
        invariant
            len == toks@.len(),
            lead < toks@.len(),
            is_ident(toks@[lead as int]),
            lead == (if path_sep_at(toks@, i as int) { i + 2 } else { i as int }),
            j == lead + 1 + 3 * count,
            j <= toks@.len(),
            extra_segments(toks@, lead + 1) == match extra_segments(toks@, j as int) {
                Some(k) => Some(k + count),
                None => None::<nat>,
            },
        decreases toks@.len() - j,
    {
        if j + 2 < toks.len() {
            match &toks[j + 2] {
                Token::Ident(_) => {},
                _ => {
                    assert(extra_segments(toks@, j as int) is None);
                    return None;
                },
            }
        } else {
            assert(extra_segments(toks@, j as int) is None);
            return None;
        }
        j = j + 3;
        proof {
            count = count + 1;
        }
    }
    Some((lead, lead == i && j == lead + 1, j))
}

/// Reads the setter name at `e`, as [`each_payload`] states.
fn read_payload(toks: &Vec<Token>, e: usize) -> (r: Option<String>)
    ensures
        match r {
            Some(n) => each_payload(toks@, e as int) == Some(n@),
            None => each_payload(toks@, e as int) is None,
        },
{
    if e >= toks.len() {
        return None;
    }
    match &toks[e] {
        Token::Group(Delim::Paren, inner) => {
            if inner.len() != 1 {
                return None;
            }
            match &inner[0] {
                Token::Str(s) => {
                    if is_identifier_text(s.as_str()) {
                        Some(s.clone())
                    } else {
                        None
                    }
                },
                _ => None,
            }
        },
        _ => None,
    }
}

/// Reads the entries of one `builder` attribute, starting from `acc`.
fn read_entries(toks: &Vec<Token>, acc: &mut FieldOptions) -> (r: Result<(), OptionError>)
    ensures
        match (r, list_options(toks@, old(acc)@)) {
            (Ok(_), Ok(v)) => final(acc)@ == v,
            (Err(a), Err(b)) => a == b,
            _ => false,
        },
{
    let ghost start = acc@;
    let len = toks.len();
    let mut i: usize = 0;
    if toks.len() == 0 {
        return Ok(());
    }
    loop
        invariant
            i < toks@.len(),
            len == toks@.len(),
            start == old(acc)@,
            entries_from(toks@, 0, start) == entries_from(toks@, i as int, acc@),
        decreases toks@.len() - i,
    {
        let ghost a0 = acc@;
        let (lead, single, e) = match read_path(toks, i) {
            Some(p) => p,
            None => return Err(OptionError::Malformed),
        };
        let name = match &toks[lead] {
            Token::Ident(s) => s,
            _ => return Err(OptionError::Malformed),
        };
        let j: usize;
        if single && same_text(name.as_str(), "optional") {
            acc.optional = true;
            j = e;
        } else if single && same_text(name.as_str(), "each") {
            match read_payload(toks, e) {
                Some(n) => {
                    acc.each = Some(n);
                },
                None => return Err(OptionError::Malformed),
            }
            j = e + 1;
        } else {
            return Err(OptionError::Unrecognized);
        }
        if j >= toks.len() {
            return Ok(());
        }
        if !punct_is(&toks[j], ',') {
            return Err(OptionError::Malformed);
        }
        if j + 1 >= toks.len() {
            return Ok(());
        }
        i = j + 1;
    }
}

proof fn lemma_error_sticks(attrs: Seq<Attribute>, k: int, m: int)
    requires
        0 <= k <= m,
        resolve_upto(attrs, k) is Err,
    ensures
        resolve_upto(attrs, m) == resolve_upto(attrs, k),
    decreases m - k,
{
    if m > k {
        lemma_error_sticks(attrs, k, m - 1);
    }
}

/// Resolves the options of a field from its attributes, in order.
/// Attributes under another path are ignored.
pub fn resolve(attrs: &Vec<Attribute>) -> (r: Result<FieldOptions, OptionError>)
    ensures
        match (r, resolve_spec(attrs@)) {
            (Ok(o), Ok(v)) => o@ == v,
            (Err(a), Err(b)) => a == b,
            _ => false,
        },
{
    let mut acc = FieldOptions { optional: false, each: None };
    let mut n: usize = 0;
    while n < attrs.len()
        invariant
            n <= attrs@.len(),
            resolve_upto(attrs@, n as int) == Ok::<OptionsView, OptionError>(acc@),
        decreases attrs@.len() - n,
    {
        let a = &attrs[n];
        if same_text(a.path.as_str(), "builder") {
            match &a.args {
                AttrArgs::List(toks) => {
                    match read_entries(toks, &mut acc) {
                        Ok(_) => {},
                        Err(x) => {
                            proof {
                                lemma_error_sticks(attrs@, n + 1, attrs@.len() as int);
                            }
                            return Err(x);
                        },
                    }
                },
                _ => {
                    proof {
                        lemma_error_sticks(attrs@, n + 1, attrs@.len() as int);
                    }
                    return Err(OptionError::Malformed);
                },
            }
        }
        n = n + 1;
    }
    Ok(acc)
}

} // verus!
