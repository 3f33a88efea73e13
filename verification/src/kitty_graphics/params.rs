//! The control data of a graphics command.

use super::ImageFormat;
use crate::text::{
    append_chars, chars_of, cut_at, find, find_char, is_text, joined, parse_i32, parse_signed,
    parse_u32, parse_unsigned, split, split_chars, split_once, string_of, strip_prefix,
    after_prefix,
};
use vstd::prelude::*;

verus! {

/// The parameters of a graphics command.
#[derive(Debug)]
pub struct KittyGraphicsParams {
    /// `a`: t/T = transfer, p = place, d = delete, q = query.
    pub action: Option<String>,
    /// `i`
    pub image_id: Option<u32>,
    /// `I`
    pub image_number: Option<u32>,
    /// `p`
    pub placement_id: Option<u32>,
    /// `f`: 24 = RGB, 32 = RGBA, 100 = PNG, or the name of a format.
    pub format: Option<String>,
    /// `s`
    pub width: Option<u32>,
    /// `v`
    pub height: Option<u32>,
    /// `c`: placement width in terminal cells.
    pub columns: Option<u32>,
    /// `r`: placement height in terminal cells.
    pub rows: Option<u32>,
    /// `x`: column.
    pub x: Option<u32>,
    /// `y`: row.
    pub y: Option<u32>,
    /// `z`: stacking order.
    pub z: Option<i32>,
    /// `m`: 1 = more data follows.
    pub more: bool,
    /// The base64 text.
    pub data: Option<String>,
}

/// What [`KittyGraphicsParams`] holds.
pub struct ParamsModel {
    pub action: Option<Seq<char>>,
    pub image_id: Option<u32>,
    pub image_number: Option<u32>,
    pub placement_id: Option<u32>,
    pub format: Option<Seq<char>>,
    pub width: Option<u32>,
    pub height: Option<u32>,
    pub columns: Option<u32>,
    pub rows: Option<u32>,
    pub x: Option<u32>,
    pub y: Option<u32>,
    pub z: Option<i32>,
    pub more: bool,
    pub data: Option<Seq<char>>,
}

/// The text of an optional string.
pub open spec fn text_of(s: Option<String>) -> Option<Seq<char>> {
    match s {
        Some(s) => Some(s@),
        None => None,
    }
}

impl View for KittyGraphicsParams {
    type V = ParamsModel;

    open spec fn view(&self) -> ParamsModel {
        ParamsModel {
            action: text_of(self.action),
            image_id: self.image_id,
            image_number: self.image_number,
            placement_id: self.placement_id,
            format: text_of(self.format),
            width: self.width,
            height: self.height,
            columns: self.columns,
            rows: self.rows,
            x: self.x,
            y: self.y,
            z: self.z,
            more: self.more,
            data: text_of(self.data),
        }
    }
}

/// An unsigned decimal number of 32 bits.
pub open spec fn number(value: Seq<char>) -> Option<u32> {
    match parse_unsigned(value, 10, 0xffff_ffff) {
        Some(v) => Some(v as u32),
        None => None,
    }
}

/// A signed decimal number of 32 bits.
pub open spec fn signed_number(value: Seq<char>) -> Option<i32> {
    match parse_signed(value) {
        Some(v) => Some(v as i32),
        None => None,
    }
}

/// What is said of a value that is no number.
pub open spec fn bad_number(key: Seq<char>, value: Seq<char>) -> Seq<char> {
    "Invalid numeric value for "@ + key + ": "@ + value
}

/// The keys that are understood.
pub open spec fn known_control(key: Seq<char>) -> bool {
    key == "a"@ || key == "i"@ || key == "I"@ || key == "p"@ || key == "f"@ || key == "s"@ || key
        == "v"@ || key == "c"@ || key == "r"@ || key == "x"@ || key == "y"@ || key == "z"@ || key
        == "m"@
}

/// The keys whose value is an unsigned number.
pub open spec fn numeric_control(key: Seq<char>) -> bool {
    key == "i"@ || key == "I"@ || key == "p"@ || key == "s"@ || key == "v"@ || key == "c"@ || key
        == "r"@ || key == "x"@ || key == "y"@
}

impl ParamsModel {
    pub open spec fn empty() -> Self {
        ParamsModel {
            action: None,
            image_id: None,
            image_number: None,
            placement_id: None,
            format: None,
            width: None,
            height: None,
            columns: None,
            rows: None,
            x: None,
            y: None,
            z: None,
            more: false,
            data: None,
        }
    }

    /// A number under its key.
    pub open spec fn with_number(self, key: Seq<char>, n: u32) -> Self {
        if key == "i"@ {
            ParamsModel { image_id: Some(n), ..self }
        } else if key == "I"@ {
            ParamsModel { image_number: Some(n), ..self }
        } else if key == "p"@ {
            ParamsModel { placement_id: Some(n), ..self }
        } else if key == "s"@ {
            ParamsModel { width: Some(n), ..self }
        } else if key == "v"@ {
            ParamsModel { height: Some(n), ..self }
        } else if key == "c"@ {
            ParamsModel { columns: Some(n), ..self }
        } else if key == "r"@ {
            ParamsModel { rows: Some(n), ..self }
        } else if key == "x"@ {
            ParamsModel { x: Some(n), ..self }
        } else if key == "y"@ {
            ParamsModel { y: Some(n), ..self }
        } else {
            self
        }
    }

    /// One control `key=value`. An unknown key is ignored.
    pub open spec fn with_control(self, key: Seq<char>, value: Seq<char>) -> Result<
        Self,
        Seq<char>,
    > {
        if numeric_control(key) {
            match number(value) {
                Some(n) => Ok(self.with_number(key, n)),
                None => Err(bad_number(key, value)),
            }
        } else if key == "a"@ {
            Ok(ParamsModel { action: Some(value), ..self })
        } else if key == "f"@ {
            Ok(ParamsModel { format: Some(value), ..self })
        } else if key == "z"@ {
            match signed_number(value) {
                Some(n) => Ok(ParamsModel { z: Some(n), ..self }),
                None => Err(bad_number(key, value)),
            }
        } else if key == "m"@ {
            if value == "0"@ {
                Ok(ParamsModel { more: false, ..self })
            } else if value == "1"@ {
                Ok(ParamsModel { more: true, ..self })
            } else {
                Err("Invalid continuation flag: "@ + value)
            }
        } else {
            Ok(self)
        }
    }

    /// One field of the standard form.
    pub open spec fn with_pair(self, pair: Seq<char>) -> Result<Self, Seq<char>> {
        if pair.len() == 0 {
            Ok(self)
        } else {
            match split_once(pair, '=') {
                Some((key, value)) => self.with_control(key, value),
                None => Err("Invalid Kitty control field: "@ + pair),
            }
        }
    }

    /// One field of the older form, in which a field that is no known control is data.
    pub open spec fn with_field(self, field: Seq<char>) -> Result<Self, Seq<char>> {
        if field.len() == 0 {
            Ok(self)
        } else {
            match split_once(field, '=') {
                Some((key, value)) => if known_control(key) {
                    self.with_control(key, value)
                } else {
                    Ok(ParamsModel { data: Some(field), ..self })
                },
                None => Ok(ParamsModel { data: Some(field), ..self }),
            }
        }
    }

    /// Fields one after the other; the first one that is wrong ends it.
    pub open spec fn with_all(self, fields: Seq<Seq<char>>, standard: bool) -> Result<
        Self,
        Seq<char>,
    >
        decreases fields.len(),
    {
        if fields.len() == 0 {
            Ok(self)
        } else {
            let next = if standard {
                self.with_pair(fields[0])
            } else {
                self.with_field(fields[0])
            };
            match next {
                Ok(params) => params.with_all(fields.drop_first(), standard),
                Err(e) => Err(e),
            }
        }
    }

    /// The parameters of a payload. The standard form is `G`, controls separated by
    /// commas, and the data behind a semicolon. In the older form semicolons separate
    /// every field.
    pub open spec fn parsed(payload: Seq<char>) -> Result<Self, Seq<char>> {
        let marked = after_prefix(payload, "G"@);
        let body = match marked {
            Some(rest) => rest,
            None => payload,
        };
        let standard = marked is Some || find(body, ',', 0) < find(body, ';', 0);
        if standard {
            match split_once(body, ';') {
                Some((controls, data)) => match Self::empty().with_all(
                    split(controls, ','),
                    true,
                ) {
                    Ok(params) => if data.len() > 0 {
                        Ok(ParamsModel { data: Some(data), ..params })
                    } else {
                        Ok(params)
                    },
                    Err(e) => Err(e),
                },
                None => Self::empty().with_all(split(body, ','), true),
            }
        } else {
            Self::empty().with_all(split(body, ';'), false)
        }
    }
}

/// The outcome of a fallible operation, over what its text says.
pub open spec fn outcome<T>(result: Result<T, String>) -> Result<T, Seq<char>> {
    match result {
        Ok(v) => Ok(v),
        Err(e) => Err(e@),
    }
}

impl Default for KittyGraphicsParams {
    fn default() -> (params: Self)
        ensures
            params@ == ParamsModel::empty(),
    {
        KittyGraphicsParams {
            action: None,
            image_id: None,
            image_number: None,
            placement_id: None,
            format: None,
            width: None,
            height: None,
            columns: None,
            rows: None,
            x: None,
            y: None,
            z: None,
            more: false,
            data: None,
        }
    }
}

fn is_known_control(key: &[char]) -> (v: bool)
    ensures
        v == known_control(key@),
{
    is_numeric_control(key) || is_text(key, "a") || is_text(key, "f") || is_text(key, "z")
        || is_text(key, "m")
}

fn is_numeric_control(key: &[char]) -> (v: bool)
    ensures
        v == numeric_control(key@),
{
    is_text(key, "i") || is_text(key, "I") || is_text(key, "p") || is_text(key, "s") || is_text(
        key,
        "v",
    ) || is_text(key, "c") || is_text(key, "r") || is_text(key, "x") || is_text(key, "y")
}

fn bad_number_text(key: &[char], value: &[char]) -> (text: String)
    ensures
        text@ == bad_number(key@, value@),
{
    let mut text = joined("Invalid numeric value for ", key);
    crate::text::append_text(&mut text, ": ");
    append_chars(&mut text, value);
    text
}

impl KittyGraphicsParams {
    fn set_number(&mut self, key: &[char], n: u32)
        ensures
            final(self)@ == old(self)@.with_number(key@, n),
    {
        if is_text(key, "i") {
            self.image_id = Some(n);
        } else if is_text(key, "I") {
            self.image_number = Some(n);
        } else if is_text(key, "p") {
            self.placement_id = Some(n);
        } else if is_text(key, "s") {
            self.width = Some(n);
        } else if is_text(key, "v") {
            self.height = Some(n);
        } else if is_text(key, "c") {
            self.columns = Some(n);
        } else if is_text(key, "r") {
            self.rows = Some(n);
        } else if is_text(key, "x") {
            self.x = Some(n);
        } else if is_text(key, "y") {
            self.y = Some(n);
        }
    }

    fn parse_control(&mut self, key: &[char], value: &[char]) -> (result: Result<(), String>)
        ensures
            result is Ok <==> old(self)@.with_control(key@, value@) is Ok,
            result is Ok ==> old(self)@.with_control(key@, value@) == Ok::<_, Seq<char>>(
                final(self)@,
            ),
            result matches Err(e) ==> old(self)@.with_control(key@, value@) == Err::<
                ParamsModel,
                _,
            >(e@),
    {
        if is_numeric_control(key) {
            match parse_u32(value) {
                Some(n) => self.set_number(key, n),
                None => return Err(bad_number_text(key, value)),
            }
        } else if is_text(key, "a") {
            self.action = Some(string_of(value));
        } else if is_text(key, "f") {
            self.format = Some(string_of(value));
        } else if is_text(key, "z") {
            match parse_i32(value) {
                Some(n) => {
                    self.z = Some(n);
                },
                None => return Err(bad_number_text(key, value)),
            }
        } else if is_text(key, "m") {
            if is_text(value, "0") {
                self.more = false;
            } else if is_text(value, "1") {
                self.more = true;
            } else {
                return Err(joined("Invalid continuation flag: ", value));
            }
        }
        Ok(())
    }

    fn parse_pair(&mut self, pair: &[char]) -> (result: Result<(), String>)
        ensures
            result is Ok <==> old(self)@.with_pair(pair@) is Ok,
            result is Ok ==> old(self)@.with_pair(pair@) == Ok::<_, Seq<char>>(final(self)@),
            result matches Err(e) ==> old(self)@.with_pair(pair@) == Err::<ParamsModel, _>(e@),
    {
        if pair.len() == 0 {
            return Ok(());
        }
        match cut_at(pair, '=') {
            Some((key, value)) => self.parse_control(key, value),
            None => Err(joined("Invalid Kitty control field: ", pair)),
        }
    }

    fn parse_field(&mut self, field: &[char]) -> (result: Result<(), String>)
        ensures
            result is Ok <==> old(self)@.with_field(field@) is Ok,
            result is Ok ==> old(self)@.with_field(field@) == Ok::<_, Seq<char>>(final(self)@),
            result matches Err(e) ==> old(self)@.with_field(field@) == Err::<ParamsModel, _>(e@),
    {
        if field.len() == 0 {
            return Ok(());
        }
        match cut_at(field, '=') {
            Some((key, value)) => {
                if is_known_control(key) {
                    return self.parse_control(key, value);
                }
                // Base64 padding holds `=` too: the whole segment is data.
                self.data = Some(string_of(field));
            },
            None => {
                self.data = Some(string_of(field));
            },
        }
        Ok(())
    }

    fn parse_all(fields: &Vec<&[char]>, standard: bool, Ghost(all): Ghost<Seq<Seq<char>>>) -> (result: Result<Self, String>)
        requires
            fields@.len() == all.len(),
            forall|i: int| 0 <= i < all.len() ==> (#[trigger] fields@[i])@ == all[i],
        ensures
            result matches Ok(params) ==> ParamsModel::empty().with_all(all, standard) == Ok::<
                _,
                Seq<char>,
            >(params@),
            result matches Err(e) ==> ParamsModel::empty().with_all(all, standard) == Err::<
                ParamsModel,
                _,
            >(e@),
    {
        let mut params = KittyGraphicsParams::default();
        let mut i: usize = 0;
        proof {
            assert(all.subrange(0, all.len() as int) =~= all);
        }
        while i < fields.len()
            invariant
                i <= fields@.len() == all.len(),
                forall|k: int| 0 <= k < all.len() ==> (#[trigger] fields@[k])@ == all[k],
                params@.with_all(all.subrange(i as int, all.len() as int), standard)
                    == ParamsModel::empty().with_all(all, standard),
            decreases fields@.len() - i,
        {
            proof {
                let rest = all.subrange(i as int, all.len() as int);
                assert(rest.drop_first() =~= all.subrange(i + 1, all.len() as int));
                assert(rest[0] == fields@[i as int]@);
            }
            let next = if standard {
                params.parse_pair(fields[i])
            } else {
                params.parse_field(fields[i])
            };
            if let Err(e) = next {
                return Err(e);
            }
            i = i + 1;
        }
        Ok(params)
    }

    /// Parses the text of a command.
    pub(crate) fn parse(payload: &str) -> (result: Result<Self, String>)
        ensures
            result matches Ok(params) ==> ParamsModel::parsed(payload@) == Ok::<_, Seq<char>>(
                params@,
            ),
            result matches Err(e) ==> ParamsModel::parsed(payload@) == Err::<ParamsModel, _>(e@),
    {
        let chars = chars_of(payload);
        let marked = strip_prefix(chars.as_slice(), "G");
        let has_marker = marked.is_some();
        let body: &[char] = match marked {
            Some(rest) => rest,
            None => chars.as_slice(),
        };
        let standard = has_marker || find_char(body, ',', 0) < find_char(body, ';', 0);
        if standard {
            match cut_at(body, ';') {
                Some((controls, data)) => {
                    let fields = split_chars(controls, ',');
                    let mut params = Self::parse_all(&fields, true, Ghost(split(controls@, ',')))?;
                    if data.len() > 0 {
                        params.data = Some(string_of(data));
                    }
                    Ok(params)
                },
                None => {
                    let fields = split_chars(body, ',');
                    Self::parse_all(&fields, true, Ghost(split(body@, ',')))
                },
            }
        } else {
            let fields = split_chars(body, ';');
            Self::parse_all(&fields, false, Ghost(split(body@, ';')))
        }
    }
}

/// What a format is called on the wire.
pub open spec fn named_format(name: Seq<char>) -> Option<ImageFormat> {
    if name == "100"@ || name == "png"@ {
        Some(ImageFormat::Png)
    } else if name == "jpeg"@ || name == "jpg"@ {
        Some(ImageFormat::Jpeg)
    } else if name == "webp"@ {
        Some(ImageFormat::Webp)
    } else if name == "24"@ || name == "rgb"@ {
        Some(ImageFormat::Rgb)
    } else if name == "32"@ || name == "rgba"@ {
        Some(ImageFormat::Rgba)
    } else {
        None
    }
}

impl ImageFormat {
    pub fn from_str(s: &str) -> (format: Option<Self>)
        ensures
            format == named_format(s@),
    {
        let name = chars_of(s);
        let name: &[char] = name.as_slice();
        if is_text(name, "100") || is_text(name, "png") {
            Some(ImageFormat::Png)
        } else if is_text(name, "jpeg") || is_text(name, "jpg") {
            Some(ImageFormat::Jpeg)
        } else if is_text(name, "webp") {
            Some(ImageFormat::Webp)
        } else if is_text(name, "24") || is_text(name, "rgb") {
            Some(ImageFormat::Rgb)
        } else if is_text(name, "32") || is_text(name, "rgba") {
            Some(ImageFormat::Rgba)
        } else {
            None
        }
    }
}

} // verus!
