//! The `Content-Disposition` header: disposition type and parameters,
//! parsed from a raw header value and rendered back to one.
//!
//! The grammar follows RFC 6266: a disposition type followed by
//! `;`-separated `key=value` parameters.  A quoted value is unquoted
//! and backslash escapes inside it are undone; a key with a trailing
//! `*` carries an RFC 5987 extended value, `charset'language'` followed
//! by percent-encoded bytes.

use vstd::prelude::*;

use crate::chars::{
    eq_ci_chars, eq_ci_str, find_char, find_char_from, lemma_find_char_from, trim, trim_str,
};

verus! {

/// A character set name carried by an extended parameter value.
#[derive(Clone, Debug, PartialEq, Eq)]
pub enum Charset {
    /// A character set, named as it appeared.
    Ext(String),
}

impl View for Charset {
    type V = Seq<char>;

    open spec fn view(&self) -> Seq<char> {
        match self {
            Charset::Ext(s) => s@,
        }
    }
}

/// An RFC 5987 extended value: a character set, an optional language
/// tag, and the percent-decoded bytes.
#[derive(Clone, Debug, PartialEq, Eq)]
pub struct ExtendedValue {
    pub charset: Charset,
    pub language_tag: Option<String>,
    pub value: Vec<u8>,
}

/// The mathematical shadow of [`ExtendedValue`].
pub ghost struct ExtendedValueView {
    pub charset: Seq<char>,
    pub language_tag: Option<Seq<char>>,
    pub value: Seq<u8>,
}

impl View for ExtendedValue {
    type V = ExtendedValueView;

    open spec fn view(&self) -> ExtendedValueView {
        ExtendedValueView {
            charset: self.charset@,
            language_tag: match self.language_tag {
                Some(ref l) => Some(l@),
                None => None,
            },
            value: self.value@,
        }
    }
}

/// The implied disposition of the content.
#[derive(Clone, Debug, PartialEq, Eq)]
pub enum DispositionType {
    /// Inline implies default processing.
    Inline,
    /// The recipient should prompt the user to save the content.
    Attachment,
    /// Used in `multipart/form-data` to carry the field name and an
    /// optional file name.
    FormData,
    /// An extension type, handled like an attachment.
    Ext(String),
}

/// The mathematical shadow of [`DispositionType`].
pub ghost enum DispositionTypeView {
    Inline,
    Attachment,
    FormData,
    Ext(Seq<char>),
}

impl View for DispositionType {
    type V = DispositionTypeView;

    open spec fn view(&self) -> DispositionTypeView {
        match self {
            DispositionType::Inline => DispositionTypeView::Inline,
            DispositionType::Attachment => DispositionTypeView::Attachment,
            DispositionType::FormData => DispositionTypeView::FormData,
            DispositionType::Ext(s) => DispositionTypeView::Ext(s@),
        }
    }
}

/// A parameter of the disposition.
#[derive(Clone, Debug, PartialEq, Eq)]
pub enum DispositionParam {
    /// The name of the form field.
    Name(String),
    /// A plain file name.
    Filename(String),
    /// An extended file name.
    FilenameExt(ExtendedValue),
    /// An unrecognized plain parameter.
    Unknown(String, String),
    /// An unrecognized extended parameter, without its trailing `*`.
    UnknownExt(String, ExtendedValue),
}

/// The mathematical shadow of [`DispositionParam`].
pub ghost enum ParamView {
    Name(Seq<char>),
    Filename(Seq<char>),
    FilenameExt(ExtendedValueView),
    Unknown(Seq<char>, Seq<char>),
    UnknownExt(Seq<char>, ExtendedValueView),
}

impl View for DispositionParam {
    type V = ParamView;

    open spec fn view(&self) -> ParamView {
        match self {
            DispositionParam::Name(s) => ParamView::Name(s@),
            DispositionParam::Filename(s) => ParamView::Filename(s@),
            DispositionParam::FilenameExt(ev) => ParamView::FilenameExt(ev@),
            DispositionParam::Unknown(k, v) => ParamView::Unknown(k@, v@),
            DispositionParam::UnknownExt(k, ev) => ParamView::UnknownExt(k@, ev@),
        }
    }
}

/// A parsed `Content-Disposition` header.
#[derive(Clone, Debug, PartialEq, Eq)]
pub struct ContentDisposition {
    /// The disposition type.
    pub disposition: DispositionType,
    /// The disposition parameters, in order of appearance.
    pub parameters: Vec<DispositionParam>,
}

/// The mathematical shadow of [`ContentDisposition`].
pub ghost struct ContentDispositionView {
    pub disposition: DispositionTypeView,
    pub parameters: Seq<ParamView>,
}

impl View for ContentDisposition {
    type V = ContentDispositionView;

    open spec fn view(&self) -> ContentDispositionView {
        ContentDispositionView {
            disposition: self.disposition@,
            parameters: Seq::new(self.parameters@.len(), |i: int| self.parameters@[i]@),
        }
    }
}

/// A malformed `Content-Disposition` header value.
#[derive(Clone, Debug, PartialEq, Eq)]
pub struct HeaderError;

/// The value of a hexadecimal digit.
pub open spec fn hex_val(c: char) -> Option<u8> {
    let x = c as u32;
    if 48 <= x <= 57 {
        Some((x - 48) as u8)
    } else if 97 <= x <= 102 {
        Some((x - 87) as u8)
    } else if 65 <= x <= 70 {
        Some((x - 55) as u8)
    } else {
        None
    }
}

/// Percent-decoding of an extended value: `%XY` encodes one byte, any
/// other ASCII character stands for itself, anything else is malformed.
pub open spec fn spec_pct_decode(s: Seq<char>) -> Option<Seq<u8>>
    decreases s.len(),
{
    if s.len() == 0 {
        Some(Seq::<u8>::empty())
    } else if s[0] == '%' {
        if s.len() >= 3 {
            match (hex_val(s[1]), hex_val(s[2])) {
                (Some(h), Some(l)) => match spec_pct_decode(s.skip(3)) {
                    Some(r) => Some(seq![((h as int) * 16 + (l as int)) as u8] + r),
                    None => None,
                },
                _ => None,
            }
        } else {
            None
        }
    } else if (s[0] as u32) < 128 {
        match spec_pct_decode(s.skip(1)) {
            Some(r) => Some(seq![(s[0] as u32) as u8] + r),
            None => None,
        }
    } else {
        None
    }
}

/// Undoing backslash escapes: `\c` stands for `c`.
pub open spec fn spec_unescape(s: Seq<char>) -> Seq<char>
    decreases s.len(),
{
    if s.len() == 0 {
        Seq::<char>::empty()
    } else if s[0] == '\\' && s.len() >= 2 {
        seq![s[1]] + spec_unescape(s.skip(2))
    } else {
        seq![s[0]] + spec_unescape(s.skip(1))
    }
}

/// A value stripped of surrounding double quotes, with escapes undone;
/// an unquoted value stands for itself.
pub open spec fn spec_unquote(s: Seq<char>) -> Seq<char> {
    if s.len() >= 2 && s[0] == '"' && s[s.len() - 1] == '"' {
        spec_unescape(s.subrange(1, s.len() - 1))
    } else {
        s
    }
}

/// What an extended value string parses to: `charset'language'` and the
/// percent-decoded remainder.
pub open spec fn spec_parse_ext_value(v: Seq<char>) -> Option<ExtendedValueView> {
    match find_char_from(v, '\'', 0) {
        None => None,
        Some(j1) => match find_char_from(v, '\'', j1 + 1) {
            None => None,
            Some(j2) => {
                if j1 == 0 {
                    None
                } else {
                    match spec_pct_decode(v.subrange(j2 + 1, v.len() as int)) {
                        None => None,
                        Some(bytes) => Some(
                            ExtendedValueView {
                                charset: v.subrange(0, j1),
                                language_tag: if j2 == j1 + 1 {
                                    None
                                } else {
                                    Some(v.subrange(j1 + 1, j2))
                                },
                                value: bytes,
                            },
                        ),
                    }
                }
            },
        },
    }
}

/// What one `key=value` section parses to.
pub open spec fn spec_parse_section(sec: Seq<char>) -> Option<ParamView> {
    match find_char_from(sec, '=', 0) {
        None => None,
        Some(e) => {
            let key = trim(sec.subrange(0, e));
            let val = trim(sec.subrange(e + 1, sec.len() as int));
            if key.len() > 0 && key[key.len() - 1] == '*' {
                let base = key.subrange(0, key.len() - 1);
                match spec_parse_ext_value(val) {
                    None => None,
                    Some(ev) => if eq_ci_chars(base, "filename"@) {
                        Some(ParamView::FilenameExt(ev))
                    } else {
                        Some(ParamView::UnknownExt(base, ev))
                    },
                }
            } else if eq_ci_chars(key, "name"@) {
                Some(ParamView::Name(spec_unquote(val)))
            } else if eq_ci_chars(key, "filename"@) {
                Some(ParamView::Filename(spec_unquote(val)))
            } else {
                Some(ParamView::Unknown(key, spec_unquote(val)))
            }
        },
    }
}

/// What the `;`-separated sections at or after `i` parse to, with
/// explicit recursion fuel.
pub open spec fn params_from(s: Seq<char>, i: int, fuel: nat) -> Option<Seq<ParamView>>
    decreases fuel,
{
    if i < 0 || i > s.len() || fuel == 0 {
        None
    } else {
        match find_char_from(s, ';', i) {
            None => match spec_parse_section(s.subrange(i, s.len() as int)) {
                None => None,
                Some(p) => Some(seq![p]),
            },
            Some(j) => match spec_parse_section(s.subrange(i, j)) {
                None => None,
                Some(p) => match params_from(s, j + 1, (fuel - 1) as nat) {
                    None => None,
                    Some(rest) => Some(seq![p] + rest),
                },
            },
        }
    }
}

/// What the `;`-separated sections at or after `i` parse to.
pub open spec fn spec_params(s: Seq<char>, i: int) -> Option<Seq<ParamView>> {
    params_from(s, i, (s.len() + 1) as nat)
}

/// Any sufficient fuel gives the same outcome.
pub proof fn lemma_params_fuel(s: Seq<char>, i: int, f1: nat, f2: nat)
    requires
        0 <= i <= s.len(),
        f1 > s.len() - i,
        f2 > s.len() - i,
    ensures
        params_from(s, i, f1) == params_from(s, i, f2),
    decreases f1,
{
    lemma_find_char_from(s, ';', i);
    match find_char_from(s, ';', i) {
        None => {},
        Some(j) => {
            lemma_params_fuel(s, j + 1, (f1 - 1) as nat, (f2 - 1) as nat);
        },
    }
}

/// The disposition type named by the first section.
pub open spec fn classify_disposition(d: Seq<char>) -> DispositionTypeView {
    if eq_ci_chars(d, "inline"@) {
        DispositionTypeView::Inline
    } else if eq_ci_chars(d, "attachment"@) {
        DispositionTypeView::Attachment
    } else if eq_ci_chars(d, "form-data"@) {
        DispositionTypeView::FormData
    } else {
        DispositionTypeView::Ext(d)
    }
}

/// Percent-decode an extended value's payload.
fn pct_decode_str(p: &str) -> (r: Result<Vec<u8>, HeaderError>)
    ensures
        match r {
            Ok(b) => spec_pct_decode(p@) == Some(b@),
            Err(_) => spec_pct_decode(p@) is None,
        },
{
    let n = p.unicode_len();
    let mut out: Vec<u8> = Vec::new();
    let mut i: usize = 0;
    proof {
        assert(p@.skip(0) =~= p@);
        assert(Seq::<u8>::empty() + spec_pct_decode(p@)->Some_0 =~= spec_pct_decode(p@)->Some_0);
    }
    while i < n
        invariant
            n == p@.len(),
            0 <= i <= n,
            match spec_pct_decode(p@.skip(i as int)) {
                Some(rest) => spec_pct_decode(p@) == Some(out@ + rest),
                None => spec_pct_decode(p@) is None,
            },
        decreases n - i,
    {
        let ghost pre = p@.skip(i as int);
        let c = p.get_char(i);
        if c == '%' {
            if n - i < 3 {
                proof {
                    assert(pre.len() < 3);
                }
                return Err(HeaderError);
            }
            let h = match hex_digit(p.get_char(i + 1)) {
                Some(h) => h,
                None => {
                    return Err(HeaderError);
                },
            };
            let l = match hex_digit(p.get_char(i + 2)) {
                Some(l) => l,
                None => {
                    return Err(HeaderError);
                },
            };
            proof {
                assert(pre.skip(3) =~= p@.skip(i + 3));
            }
            out.push(h * 16 + l);
            i += 3;
        } else if (c as u32) < 128 {
            proof {
                assert(pre.skip(1) =~= p@.skip(i + 1));
            }
            out.push((c as u32) as u8);
            i += 1;
        } else {
            return Err(HeaderError);
        }
        proof {
            assert(out@.drop_last().push(out@.last()) =~= out@);
        }
    }
    proof {
        assert(p@.skip(n as int) =~= Seq::<char>::empty());
        assert(out@ + Seq::<u8>::empty() =~= out@);
    }
    Ok(out)
}

/// The value of a hexadecimal digit character.
fn hex_digit(c: char) -> (r: Option<u8>)
    ensures
        r == hex_val(c),
{
    let x = c as u32;
    if 48 <= x && x <= 57 {
        Some((x - 48) as u8)
    } else if 97 <= x && x <= 102 {
        Some((x - 87) as u8)
    } else if 65 <= x && x <= 70 {
        Some((x - 55) as u8)
    } else {
        None
    }
}

/// Undo backslash escapes.
fn unescape_str(s: &str) -> (r: String)
    ensures
        r@ == spec_unescape(s@),
{
    let n = s.unicode_len();
    let mut out = String::new();
    let mut i: usize = 0;
    proof {
        assert(s@.skip(0) =~= s@);
        assert(Seq::<char>::empty() + spec_unescape(s@) =~= spec_unescape(s@));
    }
    while i < n
        invariant
            n == s@.len(),
            0 <= i <= n,
            spec_unescape(s@) == out@ + spec_unescape(s@.skip(i as int)),
        decreases n - i,
    {
        let ghost pre = s@.skip(i as int);
        let c = s.get_char(i);
        if c == '\\' && i + 1 < n {
            let piece = s.substring_char(i + 1, i + 2);
            proof {
                assert(piece@ =~= seq![s@[i + 1]]);
                assert(seq![pre[1]] =~= piece@);
                assert(pre.skip(2) =~= s@.skip(i + 2));
            }
            out.append(piece);
            i += 2;
        } else {
            let piece = s.substring_char(i, i + 1);
            proof {
                assert(piece@ =~= seq![s@[i as int]]);
                assert(seq![pre[0]] =~= piece@);
                assert(pre.skip(1) =~= s@.skip(i + 1));
            }
            out.append(piece);
            i += 1;
        }
    }
    proof {
        assert(s@.skip(n as int) =~= Seq::<char>::empty());
        assert(out@ + Seq::<char>::empty() =~= out@);
    }
    out
}

/// Strip surrounding double quotes and undo escapes; an unquoted value
/// stands for itself.
fn unquote_str(s: &str) -> (r: String)
    ensures
        r@ == spec_unquote(s@),
{
    let n = s.unicode_len();
    if n >= 2 && s.get_char(0) == '"' && s.get_char(n - 1) == '"' {
        let inner = s.substring_char(1, n - 1);
        unescape_str(inner)
    } else {
        s.to_owned()
    }
}

/// Parse an RFC 5987 extended value.
fn parse_ext_value_str(v: &str) -> (r: Result<ExtendedValue, HeaderError>)
    ensures
        match r {
            Ok(ev) => spec_parse_ext_value(v@) == Some(ev@),
            Err(_) => spec_parse_ext_value(v@) is None,
        },
{
    let n = v.unicode_len();
    let j1 = match find_char(v, '\'', 0) {
        Some(j) => j,
        None => {
            return Err(HeaderError);
        },
    };
    let j2 = match find_char(v, '\'', j1 + 1) {
        Some(j) => j,
        None => {
            return Err(HeaderError);
        },
    };
    if j1 == 0 {
        return Err(HeaderError);
    }
    let pct = v.substring_char(j2 + 1, n);
    let bytes = match pct_decode_str(pct) {
        Ok(b) => b,
        Err(e) => {
            return Err(e);
        },
    };
    let charset = Charset::Ext(v.substring_char(0, j1).to_owned());
    let language_tag: Option<String> = if j2 == j1 + 1 {
        None
    } else {
        Some(v.substring_char(j1 + 1, j2).to_owned())
    };
    Ok(ExtendedValue { charset, language_tag, value: bytes })
}

/// Parse one `key=value` section into a parameter.
fn parse_section_str(sec: &str) -> (r: Result<DispositionParam, HeaderError>)
    ensures
        match r {
            Ok(p) => spec_parse_section(sec@) == Some(p@),
            Err(_) => spec_parse_section(sec@) is None,
        },
{
    let n = sec.unicode_len();
    let e = match find_char(sec, '=', 0) {
        Some(e) => e,
        None => {
            return Err(HeaderError);
        },
    };
    let key = trim_str(sec.substring_char(0, e));
    let val = trim_str(sec.substring_char(e + 1, n));
    let klen = key.as_str().unicode_len();
    if klen > 0 && key.as_str().get_char(klen - 1) == '*' {
        let base = key.as_str().substring_char(0, klen - 1).to_owned();
        proof {
            assert(base@ =~= key@.subrange(0, key@.len() - 1));
        }
        let ev = match parse_ext_value_str(val.as_str()) {
            Ok(ev) => ev,
            Err(e) => {
                return Err(e);
            },
        };
        if eq_ci_str(base.as_str(), "filename") {
            Ok(DispositionParam::FilenameExt(ev))
        } else {
            Ok(DispositionParam::UnknownExt(base, ev))
        }
    } else if eq_ci_str(key.as_str(), "name") {
        Ok(DispositionParam::Name(unquote_str(val.as_str())))
    } else if eq_ci_str(key.as_str(), "filename") {
        Ok(DispositionParam::Filename(unquote_str(val.as_str())))
    } else {
        Ok(DispositionParam::Unknown(key, unquote_str(val.as_str())))
    }
}

/// The parameter views of a parameter list.
pub open spec fn params_view(v: Seq<DispositionParam>) -> Seq<ParamView> {
    Seq::new(v.len(), |i: int| v[i]@)
}

impl ContentDisposition {
    /// Parse a raw `Content-Disposition` header value.
    pub fn parse_header(raw: &str) -> (r: Result<ContentDisposition, HeaderError>)
        ensures
            match r {
                Ok(cd) => spec_parse_cd(raw@) == Some(cd@),
                Err(_) => spec_parse_cd(raw@) is None,
            },
    {
        let n = raw.unicode_len();
        if n == 0 {
            return Err(HeaderError);
        }
        let (dsec, params_start): (String, Option<usize>) = match find_char(raw, ';', 0) {
            None => (trim_str(raw), None),
            Some(j) => (trim_str(raw.substring_char(0, j)), Some(j + 1)),
        };
        let disposition = if eq_ci_str(dsec.as_str(), "inline") {
            DispositionType::Inline
        } else if eq_ci_str(dsec.as_str(), "attachment") {
            DispositionType::Attachment
        } else if eq_ci_str(dsec.as_str(), "form-data") {
            DispositionType::FormData
        } else {
            DispositionType::Ext(dsec)
        };
        let mut parameters: Vec<DispositionParam> = Vec::new();
        let start = match params_start {
            None => {
                let cd = ContentDisposition { disposition, parameters };
                proof {
                    assert(cd@.parameters =~= Seq::<ParamView>::empty());
                    assert(spec_parse_cd(raw@) == Some(cd@));
                }
                return Ok(cd);
            },
            Some(start) => start,
        };
        let mut pos = start;
        proof {
            if spec_params(raw@, start as int) is Some {
                let rest = spec_params(raw@, start as int)->Some_0;
                assert(params_view(parameters@) + rest =~= rest);
            }
        }
        loop
            invariant
                n == raw@.len(),
                0 <= pos <= n,
                1 <= start <= n,
                find_char_from(raw@, ';', 0) == Some(start - 1),
                disposition@ == classify_disposition(trim(raw@.subrange(0, start - 1))),
                n > 0,
                match spec_params(raw@, pos as int) {
                    Some(rest) => spec_params(raw@, start as int) == Some(
                        params_view(parameters@) + rest,
                    ),
                    None => spec_params(raw@, start as int) is None,
                },
            decreases n - pos,
        {
            proof {
                lemma_find_char_from(raw@, ';', pos as int);
            }
            match find_char(raw, ';', pos) {
                None => {
                    let p = match parse_section_str(raw.substring_char(pos, n)) {
                        Ok(p) => p,
                        Err(e) => {
                            return Err(e);
                        },
                    };
                    let ghost prev = parameters@;
                    parameters.push(p);
                    proof {
                        assert(params_view(parameters@) =~= params_view(prev) + seq![p@]);
                        assert(spec_params(raw@, pos as int) == Some(seq![p@]));
                        assert(spec_params(raw@, start as int) == Some(params_view(parameters@)));
                    }
                    let cd = ContentDisposition { disposition, parameters };
                    proof {
                        assert(cd@.parameters =~= params_view(cd.parameters@));
                        assert(spec_parse_cd(raw@) == Some(cd@));
                    }
                    return Ok(cd);
                },
                Some(j) => {
                    let p = match parse_section_str(raw.substring_char(pos, j)) {
                        Ok(p) => p,
                        Err(e) => {
                            return Err(e);
                        },
                    };
                    proof {
                        lemma_params_fuel(raw@, j + 1, raw@.len() as nat, (raw@.len() + 1) as nat);
                    }
                    parameters.push(p);
                    proof {
                        assert(params_view(parameters@) =~= params_view(parameters@.drop_last())
                            + seq![p@]);
                        if spec_params(raw@, j + 1) is Some {
                            let rest2 = spec_params(raw@, j + 1)->Some_0;
                            assert((params_view(parameters@.drop_last()) + (seq![p@] + rest2)) =~= (
                            params_view(parameters@) + rest2));
                        }
                    }
                    pos = j + 1;
                },
            }
        }
    }
}

impl DispositionParam {
    /// Returns `true` if the parameter is a field name.
    pub fn is_name(&self) -> (r: bool)
        ensures
            r == (self@ is Name),
    {
        self.as_name().is_some()
    }

    /// Returns `true` if the parameter is a plain file name.
    pub fn is_filename(&self) -> (r: bool)
        ensures
            r == (self@ is Filename),
    {
        self.as_filename().is_some()
    }

    /// Returns `true` if the parameter is an extended file name.
    pub fn is_filename_ext(&self) -> (r: bool)
        ensures
            r == (self@ is FilenameExt),
    {
        self.as_filename_ext().is_some()
    }

    /// Returns `true` if the parameter is an unrecognized plain
    /// parameter whose key matches `name` up to ASCII case.
    pub fn is_unknown(&self, name: &str) -> (r: bool)
        ensures
            r == (self@ matches ParamView::Unknown(k, v) && eq_ci_chars(k, name@)),
    {
        self.as_unknown(name).is_some()
    }

    /// Returns `true` if the parameter is an unrecognized extended
    /// parameter whose key matches `name` up to ASCII case.
    pub fn is_unknown_ext(&self, name: &str) -> (r: bool)
        ensures
            r == (self@ matches ParamView::UnknownExt(k, v) && eq_ci_chars(k, name@)),
    {
        self.as_unknown_ext(name).is_some()
    }

    /// The field name, if this parameter carries one.
    pub fn as_name(&self) -> (r: Option<&str>)
        ensures
            match r {
                Some(s) => self@ matches ParamView::Name(n) && s@ == n,
                None => !(self@ is Name),
            },
    {
        match self {
            DispositionParam::Name(name) => Some(name.as_str()),
            _ => None,
        }
    }

    /// The plain file name, if this parameter carries one.
    pub fn as_filename(&self) -> (r: Option<&str>)
        ensures
            match r {
                Some(s) => self@ matches ParamView::Filename(f) && s@ == f,
                None => !(self@ is Filename),
            },
    {
        match self {
            DispositionParam::Filename(filename) => Some(filename.as_str()),
            _ => None,
        }
    }

    /// The extended file name, if this parameter carries one.
    pub fn as_filename_ext(&self) -> (r: Option<&ExtendedValue>)
        ensures
            match r {
                Some(ev) => self@ matches ParamView::FilenameExt(e) && ev@ == e,
                None => !(self@ is FilenameExt),
            },
    {
        match self {
            DispositionParam::FilenameExt(value) => Some(value),
            _ => None,
        }
    }

    /// The value of the unrecognized plain parameter whose key matches
    /// `name` up to ASCII case.
    pub fn as_unknown(&self, name: &str) -> (r: Option<&str>)
        ensures
            match r {
                Some(s) => self@ matches ParamView::Unknown(k, v) && eq_ci_chars(k, name@) && s@
                    == v,
                None => !(self@ matches ParamView::Unknown(k, v) && eq_ci_chars(k, name@)),
            },
    {
        match self {
            DispositionParam::Unknown(key, value) => {
                if eq_ci_str(key.as_str(), name) {
                    Some(value.as_str())
                } else {
                    None
                }
            },
            _ => None,
        }
    }

    /// The value of the unrecognized extended parameter whose key
    /// matches `name` up to ASCII case.
    pub fn as_unknown_ext(&self, name: &str) -> (r: Option<&ExtendedValue>)
        ensures
            match r {
                Some(ev) => self@ matches ParamView::UnknownExt(k, e) && eq_ci_chars(k, name@)
                    && ev@ == e,
                None => !(self@ matches ParamView::UnknownExt(k, e) && eq_ci_chars(k, name@)),
            },
    {
        match self {
            DispositionParam::UnknownExt(key, value) => {
                if eq_ci_str(key.as_str(), name) {
                    Some(value)
                } else {
                    None
                }
            },
            _ => None,
        }
    }
}

/// The first field name among the parameters at or after `i`.
pub open spec fn first_name(ps: Seq<ParamView>, i: int) -> Option<Seq<char>>
    decreases ps.len() - i when 0 <= i <= ps.len()
{
    if i < 0 || i >= ps.len() {
        None
    } else {
        match ps[i] {
            ParamView::Name(n) => Some(n),
            _ => first_name(ps, i + 1),
        }
    }
}

/// The first plain file name among the parameters at or after `i`.
pub open spec fn first_filename(ps: Seq<ParamView>, i: int) -> Option<Seq<char>>
    decreases ps.len() - i when 0 <= i <= ps.len()
{
    if i < 0 || i >= ps.len() {
        None
    } else {
        match ps[i] {
            ParamView::Filename(f) => Some(f),
            _ => first_filename(ps, i + 1),
        }
    }
}

/// The first extended file name among the parameters at or after `i`.
pub open spec fn first_filename_ext(ps: Seq<ParamView>, i: int) -> Option<ExtendedValueView>
    decreases ps.len() - i when 0 <= i <= ps.len()
{
    if i < 0 || i >= ps.len() {
        None
    } else {
        match ps[i] {
            ParamView::FilenameExt(e) => Some(e),
            _ => first_filename_ext(ps, i + 1),
        }
    }
}

/// The value of the first unrecognized plain parameter at or after `i`
/// whose key matches `name` up to ASCII case.
pub open spec fn first_unknown(ps: Seq<ParamView>, name: Seq<char>, i: int) -> Option<Seq<char>>
    decreases ps.len() - i when 0 <= i <= ps.len()
{
    if i < 0 || i >= ps.len() {
        None
    } else {
        match ps[i] {
            ParamView::Unknown(k, v) => if eq_ci_chars(k, name) {
                Some(v)
            } else {
                first_unknown(ps, name, i + 1)
            },
            _ => first_unknown(ps, name, i + 1),
        }
    }
}

/// The value of the first unrecognized extended parameter at or after
/// `i` whose key matches `name` up to ASCII case.
pub open spec fn first_unknown_ext(ps: Seq<ParamView>, name: Seq<char>, i: int) -> Option<
    ExtendedValueView,
>
    decreases ps.len() - i when 0 <= i <= ps.len()
{
    if i < 0 || i >= ps.len() {
        None
    } else {
        match ps[i] {
            ParamView::UnknownExt(k, e) => if eq_ci_chars(k, name) {
                Some(e)
            } else {
                first_unknown_ext(ps, name, i + 1)
            },
            _ => first_unknown_ext(ps, name, i + 1),
        }
    }
}

impl ContentDisposition {
    /// Returns `true` if the disposition type is inline.
    pub fn is_inline(&self) -> (r: bool)
        ensures
            r == (self@.disposition is Inline),
    {
        matches!(self.disposition, DispositionType::Inline)
    }

    /// Returns `true` if the disposition type is attachment.
    pub fn is_attachment(&self) -> (r: bool)
        ensures
            r == (self@.disposition is Attachment),
    {
        matches!(self.disposition, DispositionType::Attachment)
    }

    /// Returns `true` if the disposition type is form-data.
    pub fn is_form_data(&self) -> (r: bool)
        ensures
            r == (self@.disposition is FormData),
    {
        matches!(self.disposition, DispositionType::FormData)
    }

    /// Returns `true` if the disposition type is an extension type
    /// matching `disp_type` up to ASCII case.
    pub fn is_ext(&self, disp_type: &str) -> (r: bool)
        ensures
            r == (self@.disposition matches DispositionTypeView::Ext(t) && eq_ci_chars(
                t,
                disp_type@,
            )),
    {
        match &self.disposition {
            DispositionType::Ext(t) => eq_ci_str(t.as_str(), disp_type),
            _ => false,
        }
    }

    /// The value of the `name` parameter, if one exists.
    pub fn get_name(&self) -> (r: Option<&str>)
        ensures
            match r {
                Some(s) => first_name(self@.parameters, 0) == Some(s@),
                None => first_name(self@.parameters, 0) is None,
            },
    {
        let n = self.parameters.len();
        let mut i: usize = 0;
        while i < n
            invariant
                n == self.parameters@.len(),
                0 <= i <= n,
                first_name(self@.parameters, 0) == first_name(self@.parameters, i as int),
            decreases n - i,
        {
            match &self.parameters[i] {
                DispositionParam::Name(name) => {
                    return Some(name.as_str());
                },
                _ => {},
            }
            i += 1;
        }
        None
    }

    /// The value of the `filename` parameter, if one exists.
    pub fn get_filename(&self) -> (r: Option<&str>)
        ensures
            match r {
                Some(s) => first_filename(self@.parameters, 0) == Some(s@),
                None => first_filename(self@.parameters, 0) is None,
            },
    {
        let n = self.parameters.len();
        let mut i: usize = 0;
        while i < n
            invariant
                n == self.parameters@.len(),
                0 <= i <= n,
                first_filename(self@.parameters, 0) == first_filename(self@.parameters, i as int),
            decreases n - i,
        {
            match &self.parameters[i] {
                DispositionParam::Filename(filename) => {
                    return Some(filename.as_str());
                },
                _ => {},
            }
            i += 1;
        }
        None
    }

    /// The value of the `filename*` parameter, if one exists.
    pub fn get_filename_ext(&self) -> (r: Option<&ExtendedValue>)
        ensures
            match r {
                Some(ev) => first_filename_ext(self@.parameters, 0) == Some(ev@),
                None => first_filename_ext(self@.parameters, 0) is None,
            },
    {
        let n = self.parameters.len();
        let mut i: usize = 0;
        while i < n
            invariant
                n == self.parameters@.len(),
                0 <= i <= n,
                first_filename_ext(self@.parameters, 0) == first_filename_ext(
                    self@.parameters,
                    i as int,
                ),
            decreases n - i,
        {
            match &self.parameters[i] {
                DispositionParam::FilenameExt(value) => {
                    return Some(value);
                },
                _ => {},
            }
            i += 1;
        }
        None
    }

    /// The value of the unrecognized plain parameter whose key matches
    /// `name` up to ASCII case, if one exists.
    pub fn get_unknown(&self, name: &str) -> (r: Option<&str>)
        ensures
            match r {
                Some(s) => first_unknown(self@.parameters, name@, 0) == Some(s@),
                None => first_unknown(self@.parameters, name@, 0) is None,
            },
    {
        let n = self.parameters.len();
        let mut i: usize = 0;
        while i < n
            invariant
                n == self.parameters@.len(),
                0 <= i <= n,
                first_unknown(self@.parameters, name@, 0) == first_unknown(
                    self@.parameters,
                    name@,
                    i as int,
                ),
            decreases n - i,
        {
            match &self.parameters[i] {
                DispositionParam::Unknown(key, value) => {
                    if eq_ci_str(key.as_str(), name) {
                        return Some(value.as_str());
                    }
                },
                _ => {},
            }
            i += 1;
        }
        None
    }

    /// The value of the unrecognized extended parameter whose key
    /// matches `name` up to ASCII case, if one exists.
    pub fn get_unknown_ext(&self, name: &str) -> (r: Option<&ExtendedValue>)
        ensures
            match r {
                Some(ev) => first_unknown_ext(self@.parameters, name@, 0) == Some(ev@),
                None => first_unknown_ext(self@.parameters, name@, 0) is None,
            },
    {
        let n = self.parameters.len();
        let mut i: usize = 0;
        while i < n
            invariant
                n == self.parameters@.len(),
                0 <= i <= n,
                first_unknown_ext(self@.parameters, name@, 0) == first_unknown_ext(
                    self@.parameters,
                    name@,
                    i as int,
                ),
            decreases n - i,
        {
            match &self.parameters[i] {
                DispositionParam::UnknownExt(key, value) => {
                    if eq_ci_str(key.as_str(), name) {
                        return Some(value);
                    }
                },
                _ => {},
            }
            i += 1;
        }
        None
    }

    /// The name of the header this type parses and renders.
    pub fn header_name() -> (r: &'static str)
        ensures
            r@ == "Content-Disposition"@,
    {
        "Content-Disposition"
    }
}

/// What a whole `Content-Disposition` value parses to: the first
/// section names the disposition type, the remaining sections are
/// parameters.  An empty value, a section without `=`, or a malformed
/// extended value is rejected.
pub open spec fn spec_parse_cd(s: Seq<char>) -> Option<ContentDispositionView> {
    if s.len() == 0 {
        None
    } else {
        match find_char_from(s, ';', 0) {
            None => Some(
                ContentDispositionView {
                    disposition: classify_disposition(trim(s)),
                    parameters: Seq::<ParamView>::empty(),
                },
            ),
            Some(j) => {
                let dt = classify_disposition(trim(s.subrange(0, j)));
                match spec_params(s, j + 1) {
                    None => None,
                    Some(ps) => Some(ContentDispositionView { disposition: dt, parameters: ps }),
                }
            },
        }
    }
}

} // verus!

verus! {

/// A character that must be backslash-escaped inside a quoted value:
/// control characters, DEL, the double quote, and the backslash.
pub open spec fn escapable(c: char) -> bool {
    (c as u32) <= 8 || (0x10 <= (c as u32) && (c as u32) <= 0x1F) || (c as u32) == 0x7F || c == '"'
        || c == '\\'
}

/// A value with every escapable character preceded by a backslash.
pub open spec fn spec_escape(s: Seq<char>) -> Seq<char>
    decreases s.len(),
{
    if s.len() == 0 {
        Seq::<char>::empty()
    } else {
        (if escapable(s[0]) {
            seq!['\\', s[0]]
        } else {
            seq![s[0]]
        }) + spec_escape(s.skip(1))
    }
}

/// A byte that stands for itself in an RFC 5987 extended value.
pub open spec fn attr_char(b: u8) -> bool {
    ||| (48 <= b <= 57)
    ||| (65 <= b <= 90)
    ||| (97 <= b <= 122)
    ||| b == 33
    ||| b == 35
    ||| b == 36
    ||| b == 38
    ||| b == 43
    ||| b == 45
    ||| b == 46
    ||| b == 94
    ||| b == 95
    ||| b == 96
    ||| b == 124
    ||| b == 126
}

/// The byte of an upper-case hexadecimal digit.
pub open spec fn hex_byte(n: u8) -> u8 {
    if n < 10 {
        (48 + n) as u8
    } else {
        (55 + n) as u8
    }
}

/// The percent-encoding of a byte string, as ASCII bytes: attribute
/// characters stand for themselves, anything else becomes `%XY` with
/// upper-case hexadecimal digits.
pub open spec fn pct_bytes(v: Seq<u8>) -> Seq<u8>
    decreases v.len(),
{
    if v.len() == 0 {
        Seq::<u8>::empty()
    } else {
        (if attr_char(v[0]) {
            seq![v[0]]
        } else {
            seq![37u8, hex_byte(v[0] / 16), hex_byte(v[0] % 16)]
        }) + pct_bytes(v.skip(1))
    }
}

/// Bytes read as characters, one per byte.
pub open spec fn chars_of_bytes(v: Seq<u8>) -> Seq<char> {
    Seq::new(v.len(), |i: int| v[i] as char)
}

/// The percent-encoding of a byte string, as characters.
pub open spec fn spec_pct_encode(v: Seq<u8>) -> Seq<char> {
    chars_of_bytes(pct_bytes(v))
}

/// Whether every byte is printable ASCII.
pub open spec fn all_printable(v: Seq<u8>) -> bool {
    forall|i: int| 0 <= i < v.len() ==> 32 <= #[trigger] v[i] <= 126
}

/// An extended value that renders as a plain quoted file name: UTF-8,
/// no language tag, and printable ASCII content.
pub open spec fn simple_ext(ev: ExtendedValueView) -> bool {
    ev.language_tag is None && eq_ci_chars(ev.charset, "utf-8"@) && all_printable(ev.value)
}

/// The rendering of an extended value: `charset'language'` and the
/// percent-encoded bytes.
pub open spec fn spec_render_ext(ev: ExtendedValueView) -> Seq<char> {
    ev.charset + "'"@ + (match ev.language_tag {
        Some(l) => l,
        None => Seq::<char>::empty(),
    }) + "'"@ + spec_pct_encode(ev.value)
}

/// The rendering of one parameter, with its leading separator.
pub open spec fn spec_render_param(p: ParamView) -> Seq<char> {
    match p {
        ParamView::Name(v) => "; name="@ + v,
        ParamView::Filename(v) => "; filename=\""@ + spec_escape(v) + "\""@,
        ParamView::FilenameExt(ev) => if simple_ext(ev) {
            "; filename=\""@ + spec_escape(chars_of_bytes(ev.value)) + "\""@
        } else {
            "; filename*="@ + spec_render_ext(ev)
        },
        ParamView::Unknown(k, v) => "; "@ + k + "=\""@ + spec_escape(v) + "\""@,
        ParamView::UnknownExt(k, ev) => "; "@ + k + "*="@ + spec_render_ext(ev),
    }
}

/// The rendering of the parameters at or after `i`.
pub open spec fn spec_render_params(ps: Seq<ParamView>, i: int) -> Seq<char>
    decreases ps.len() - i when 0 <= i <= ps.len()
{
    if i < 0 || i >= ps.len() {
        Seq::<char>::empty()
    } else {
        spec_render_param(ps[i]) + spec_render_params(ps, i + 1)
    }
}

/// The rendering of a whole `Content-Disposition` value.
pub open spec fn spec_render_cd(cd: ContentDispositionView) -> Seq<char> {
    (match cd.disposition {
        DispositionTypeView::Inline => "inline"@,
        DispositionTypeView::Attachment => "attachment"@,
        DispositionTypeView::FormData => "form-data"@,
        DispositionTypeView::Ext(s) => s,
    }) + spec_render_params(cd.parameters, 0)
}

/// Escape a value for use inside a quoted string.
fn escape_str(s: &str) -> (r: String)
    ensures
        r@ == spec_escape(s@),
{
    let n = s.unicode_len();
    let mut out = String::new();
    let mut i: usize = 0;
    proof {
        assert(s@.skip(0) =~= s@);
        assert(Seq::<char>::empty() + spec_escape(s@) =~= spec_escape(s@));
    }
    while i < n
        invariant
            n == s@.len(),
            0 <= i <= n,
            spec_escape(s@) == out@ + spec_escape(s@.skip(i as int)),
        decreases n - i,
    {
        let ghost pre = s@.skip(i as int);
        let c = s.get_char(i);
        let cu = c as u32;
        let piece = s.substring_char(i, i + 1);
        proof {
            assert(piece@ =~= seq![s@[i as int]]);
            assert(pre.skip(1) =~= s@.skip(i + 1));
        }
        if cu <= 8 || (0x10 <= cu && cu <= 0x1F) || cu == 0x7F || c == '"' || c == '\\' {
            out.append("\\");
            proof {
                reveal_strlit("\\");
                assert(seq!['\\', pre[0]] =~= "\\"@ + piece@);
            }
            out.append(piece);
        } else {
            out.append(piece);
        }
        i += 1;
    }
    proof {
        assert(s@.skip(n as int) =~= Seq::<char>::empty());
        assert(out@ + Seq::<char>::empty() =~= out@);
    }
    out
}

/// Percent-encode a byte string.
fn pct_encode(v: &[u8]) -> (r: String)
    ensures
        r@ == spec_pct_encode(v@),
{
    let n = v.len();
    let mut out: Vec<u8> = Vec::new();
    let mut i: usize = 0;
    proof {
        assert(v@.skip(0) =~= v@);
        assert(Seq::<u8>::empty() + pct_bytes(v@) =~= pct_bytes(v@));
    }
    while i < n
        invariant
            n == v@.len(),
            0 <= i <= n,
            pct_bytes(v@) == out@ + pct_bytes(v@.skip(i as int)),
            forall|j: int| 0 <= j < out@.len() ==> #[trigger] out@[j] < 128,
        decreases n - i,
    {
        let ghost pre = v@.skip(i as int);
        let b = v[i];
        proof {
            assert(pre.skip(1) =~= v@.skip(i + 1));
        }
        let is_attr = (48 <= b && b <= 57) || (65 <= b && b <= 90) || (97 <= b && b <= 122) || b
            == 33 || b == 35 || b == 36 || b == 38 || b == 43 || b == 45 || b == 46 || b == 94 || b
            == 95 || b == 96 || b == 124 || b == 126;
        if is_attr {
            out.push(b);
        } else {
            out.push(37);
            let hi = b / 16;
            let lo = b % 16;
            out.push(
                if hi < 10 {
                    48 + hi
                } else {
                    55 + hi
                },
            );
            out.push(
                if lo < 10 {
                    48 + lo
                } else {
                    55 + lo
                },
            );
        }
        i += 1;
    }
    proof {
        assert(v@.skip(n as int) =~= Seq::<u8>::empty());
        assert(out@ + Seq::<u8>::empty() =~= out@);
    }
    let s = crate::bytes::ascii_to_string(out);
    proof {
        assert(s@ =~= spec_pct_encode(v@));
    }
    s
}

impl ExtendedValue {
    /// Render this extended value as `charset'language'` followed by
    /// the percent-encoded bytes.
    pub fn render(&self) -> (r: String)
        ensures
            r@ == spec_render_ext(self@),
    {
        let mut out = String::new();
        match &self.charset {
            Charset::Ext(cs) => out.append(cs.as_str()),
        }
        out.append("'");
        if let Some(l) = &self.language_tag {
            out.append(l.as_str());
        }
        out.append("'");
        let pct = pct_encode(self.value.as_slice());
        out.append(pct.as_str());
        proof {
            if self.language_tag is None {
                assert(self@.charset + "'"@ + Seq::<char>::empty() =~= self@.charset + "'"@);
            }
        }
        out
    }
}

/// Render one parameter, with its leading separator.
fn render_param(p: &DispositionParam) -> (r: String)
    ensures
        r@ == spec_render_param(p@),
{
    match p {
        DispositionParam::Name(v) => {
            let mut out = String::new();
            out.append("; name=");
            out.append(v.as_str());
            out
        },
        DispositionParam::Filename(v) => {
            let mut out = String::new();
            out.append("; filename=\"");
            let e = escape_str(v.as_str());
            out.append(e.as_str());
            out.append("\"");
            out
        },
        DispositionParam::FilenameExt(ev) => {
            let simple = ev.language_tag.is_none() && (match &ev.charset {
                Charset::Ext(cs) => eq_ci_str(cs.as_str(), "utf-8"),
            }) && all_printable_exec(ev.value.as_slice());
            if simple {
                let mut out = String::new();
                out.append("; filename=\"");
                let s = crate::bytes::ascii_to_string(
                    vstd::slice::slice_to_vec(ev.value.as_slice()),
                );
                proof {
                    assert(s@ =~= chars_of_bytes(ev.value@));
                }
                let e = escape_str(s.as_str());
                out.append(e.as_str());
                out.append("\"");
                out
            } else {
                let mut out = String::new();
                out.append("; filename*=");
                let s = ev.render();
                out.append(s.as_str());
                out
            }
        },
        DispositionParam::Unknown(k, v) => {
            let mut out = String::new();
            out.append("; ");
            out.append(k.as_str());
            out.append("=\"");
            let e = escape_str(v.as_str());
            out.append(e.as_str());
            out.append("\"");
            out
        },
        DispositionParam::UnknownExt(k, ev) => {
            let mut out = String::new();
            out.append("; ");
            out.append(k.as_str());
            out.append("*=");
            let s = ev.render();
            out.append(s.as_str());
            out
        },
    }
}

/// Whether every byte of a slice is printable ASCII.
fn all_printable_exec(v: &[u8]) -> (r: bool)
    ensures
        r == all_printable(v@),
{
    let n = v.len();
    let mut i: usize = 0;
    while i < n
        invariant
            n == v@.len(),
            0 <= i <= n,
            forall|j: int| 0 <= j < i ==> 32 <= #[trigger] v@[j] <= 126,
        decreases n - i,
    {
        if v[i] < 32 || v[i] > 126 {
            return false;
        }
        i += 1;
    }
    true
}

impl ContentDisposition {
    /// Render this header back to its wire form: the disposition type
    /// followed by each parameter behind a `; ` separator.  An
    /// extended file name in UTF-8 with no language tag and printable
    /// content renders as a plain quoted `filename`.
    pub fn render(&self) -> (r: String)
        ensures
            r@ == spec_render_cd(self@),
    {
        let mut out = String::new();
        match &self.disposition {
            DispositionType::Inline => out.append("inline"),
            DispositionType::Attachment => out.append("attachment"),
            DispositionType::FormData => out.append("form-data"),
            DispositionType::Ext(s) => out.append(s.as_str()),
        }
        let n = self.parameters.len();
        let mut i: usize = 0;
        while i < n
            invariant
                n == self.parameters@.len(),
                0 <= i <= n,
                out@ + spec_render_params(self@.parameters, i as int) == spec_render_cd(self@),
            decreases n - i,
        {
            let p = render_param(&self.parameters[i]);
            out.append(p.as_str());
            proof {
                assert((out@ + spec_render_params(self@.parameters, i + 1)) =~= spec_render_cd(
                    self@,
                ));
            }
            i += 1;
        }
        proof {
            assert(out@ + Seq::<char>::empty() =~= out@);
        }
        out
    }
}

} // verus!

verus! {

/// Escaping and unescaping are inverse: a quoted value written by the
/// renderer reads back as the value it was written from.
pub proof fn lemma_escape_unescape(s: Seq<char>)
    ensures
        spec_unescape(spec_escape(s)) == s,
    decreases s.len(),
{
    if s.len() == 0 {
    } else {
        lemma_escape_unescape(s.skip(1));
        let e = spec_escape(s);
        if escapable(s[0]) {
            assert(e =~= seq!['\\', s[0]] + spec_escape(s.skip(1)));
            assert(e[0] == '\\' && e.len() >= 2 && e[1] == s[0]);
            assert(e.skip(2) =~= spec_escape(s.skip(1)));
            assert(spec_unescape(e) =~= seq![s[0]] + s.skip(1));
            assert(seq![s[0]] + s.skip(1) =~= s);
        } else {
            assert(e =~= seq![s[0]] + spec_escape(s.skip(1)));
            assert(e[0] == s[0] && s[0] != '\\');
            assert(e.skip(1) =~= spec_escape(s.skip(1)));
            assert(spec_unescape(e) =~= seq![s[0]] + s.skip(1));
            assert(seq![s[0]] + s.skip(1) =~= s);
        }
    }
}

/// Percent-encoding and percent-decoding are inverse: the bytes of an
/// extended value written by the renderer read back unchanged.
pub proof fn lemma_pct_round_trip(v: Seq<u8>)
    ensures
        spec_pct_decode(spec_pct_encode(v)) == Some(v),
    decreases v.len(),
{
    if v.len() == 0 {
        assert(pct_bytes(v) =~= Seq::<u8>::empty());
        assert(spec_pct_encode(v) =~= Seq::<char>::empty());
    } else {
        lemma_pct_round_trip(v.skip(1));
        let b = pct_bytes(v);
        let e = spec_pct_encode(v);
        let rest_b = pct_bytes(v.skip(1));
        let rest_e = spec_pct_encode(v.skip(1));
        if attr_char(v[0]) {
            assert(b =~= seq![v[0]] + rest_b);
            assert(e.len() == b.len());
            assert(e[0] == v[0] as char);
            assert(e.skip(1) =~= rest_e);
            assert(v[0] != 37 && (e[0] as u32) < 128);
            assert(e[0] != '%') by {
                assert(('%' as u32) == 37);
                assert((e[0] as u32) == v[0] as u32);
            }
            assert((e[0] as u32) as u8 == v[0]);
            assert(spec_pct_decode(e) =~~= Some(seq![v[0]] + v.skip(1)));
            assert(seq![v[0]] + v.skip(1) =~= v);
        } else {
            let hi = hex_byte(v[0] / 16);
            let lo = hex_byte(v[0] % 16);
            assert(b =~= seq![37u8, hi, lo] + rest_b);
            assert(e.len() == b.len() && e.len() >= 3);
            assert(e[0] == (37u8 as char) && e[1] == hi as char && e[2] == lo as char);
            assert(e[0] == '%') by {
                assert(('%' as u32) == 37);
                assert((e[0] as u32) == 37);
            }
            assert(e.skip(3) =~= rest_e);
            assert(hex_val(e[1]) == Some((v[0] / 16) as u8)) by {
                assert((e[1] as u32) == hi as u32);
            }
            assert(hex_val(e[2]) == Some((v[0] % 16) as u8)) by {
                assert((e[2] as u32) == lo as u32);
            }
            assert(((v[0] / 16) as int) * 16 + ((v[0] % 16) as int) == v[0]) by {
                assert(v[0] / 16 * 16 + v[0] % 16 == v[0]);
            }
            assert(spec_pct_decode(e) =~~= Some(seq![v[0]] + v.skip(1)));
            assert(seq![v[0]] + v.skip(1) =~= v);
        }
    }
}

} // verus!

verus! {

/// Quoting round trip: a value written as a quoted string — wrapped in
/// double quotes with its escapable characters escaped — parses back
/// to the value itself.  This is why re-rendering a parsed disposition
/// preserves every quoted parameter, the file name among them.
pub proof fn lemma_quote_round_trip(f: Seq<char>)
    ensures
        spec_unquote(seq!['"'] + spec_escape(f) + seq!['"']) == f,
{
    let q = seq!['"'] + spec_escape(f) + seq!['"'];
    assert(q.len() >= 2);
    assert(q[0] == '"');
    assert(q[q.len() - 1] == '"');
    assert(q.subrange(1, q.len() - 1) =~= spec_escape(f));
    lemma_escape_unescape(f);
}

} // verus!

verus! {

/// No percent-encoded byte renders as a single-quote character.
proof fn lemma_pct_no_quote(v: Seq<u8>)
    ensures
        forall|i: int| 0 <= i < pct_bytes(v).len() ==> pct_bytes(v)[i] != 39,
    decreases v.len(),
{
    if v.len() > 0 {
        lemma_pct_no_quote(v.skip(1));
        let head: Seq<u8> = if attr_char(v[0]) {
            seq![v[0]]
        } else {
            seq![37u8, hex_byte(v[0] / 16), hex_byte(v[0] % 16)]
        };
        assert(pct_bytes(v) == head + pct_bytes(v.skip(1)));
        assert forall|i: int| 0 <= i < pct_bytes(v).len() implies pct_bytes(v)[i] != 39 by {
            if i < head.len() {
                assert(pct_bytes(v)[i] == head[i]);
            } else {
                assert(pct_bytes(v)[i] == pct_bytes(v.skip(1))[i - head.len()]);
            }
        }
    }
}

/// Extended-value round trip: rendering an extended value and parsing
/// the result recovers the value, provided the character set is a
/// non-empty name without single quotes and the language tag, when
/// present, is too.
pub proof fn lemma_ext_round_trip(ev: ExtendedValueView)
    requires
        ev.charset.len() > 0,
        forall|i: int| 0 <= i < ev.charset.len() ==> ev.charset[i] != '\'',
        match ev.language_tag {
            Some(l) => l.len() > 0 && forall|i: int| 0 <= i < l.len() ==> l[i] != '\'',
            None => true,
        },
    ensures
        spec_parse_ext_value(spec_render_ext(ev)) == Some(ev),
{
    reveal_strlit("'");
    let cs = ev.charset;
    let csl = cs.len() as int;
    let lang: Seq<char> = match ev.language_tag {
        Some(l) => l,
        None => Seq::<char>::empty(),
    };
    let pct = spec_pct_encode(ev.value);
    let q = spec_render_ext(ev);
    assert("'"@ =~= seq!['\'']);
    assert(q =~= cs + seq!['\''] + lang + seq!['\''] + pct);
    let j2 = csl + 1 + lang.len() as int;
    assert(q.len() == j2 + 1 + pct.len());
    // No single quote appears in the percent-encoded tail.
    lemma_pct_no_quote(ev.value);
    assert forall|i: int| 0 <= i < pct.len() implies pct[i] != '\'' by {
        assert(pct[i] == pct_bytes(ev.value)[i] as char);
        assert(pct_bytes(ev.value)[i] != 39);
        assert((pct[i] as u32) == pct_bytes(ev.value)[i] as u32);
        assert(('\'' as u32) == 39);
    }
    // The first quote sits right after the character set.
    assert(q[csl] == '\'');
    lemma_find_char_from(q, '\'', 0);
    match find_char_from(q, '\'', 0) {
        None => {
            assert(q[csl] != '\'');
        },
        Some(i) => {
            if i < csl {
                assert(q[i] == cs[i]);
            }
            if i > csl {
                assert(q[csl] != '\'');
            }
            assert(i == csl);
        },
    }
    // The second quote sits right after the language tag.
    assert(q[j2] == '\'');
    lemma_find_char_from(q, '\'', csl + 1);
    match find_char_from(q, '\'', csl + 1) {
        None => {
            assert(q[j2] != '\'');
        },
        Some(i) => {
            if csl + 1 <= i < j2 {
                assert(q[i] == lang[i - (csl + 1)]);
            }
            if i > j2 {
                assert(q[j2] != '\'');
            }
            assert(i == j2);
        },
    }
    assert(q.subrange(0, csl) =~= cs);
    assert(q.subrange(csl + 1, j2) =~= lang);
    assert(q.subrange(j2 + 1, q.len() as int) =~= pct);
    lemma_pct_round_trip(ev.value);
    match spec_parse_ext_value(q) {
        None => {
            assert(false);
        },
        Some(got) => {
            assert(got.charset == ev.charset);
            assert(got.value == ev.value);
            match ev.language_tag {
                Some(l) => {
                    assert(j2 != csl + 1);
                    assert(got.language_tag == Some(l));
                },
                None => {
                    assert(j2 == csl + 1);
                    assert(got.language_tag == None::<Seq<char>>);
                },
            }
        },
    }
}

} // verus!
