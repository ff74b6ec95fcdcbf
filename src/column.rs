use vstd::prelude::*;
use vstd::string::StringExecFns;
use crate::text::{pad_left, pad_text, radix_digits, radix_text};

verus! {

/// How the samples of a table column are read.
#[derive(Clone, Copy, Debug, PartialEq, Eq, Structural)]
pub enum DecodeType {
    Float32,
    Int24,
    RealNumber,
}

/// The radix a binary reading is shown in.
#[derive(Clone, Copy, Debug, PartialEq, Eq, Structural)]
pub enum BinaryDisplayStyle {
    Hex,
    Dec,
    Oct,
    Bin,
}

pub open spec fn decode_type_text(d: DecodeType) -> Seq<char> {
    match d {
        DecodeType::Float32 => "32bit (float)"@,
        DecodeType::Int24 => "24bit (integer)"@,
        DecodeType::RealNumber => "Real Number"@,
    }
}

pub open spec fn style_text(s: BinaryDisplayStyle) -> Seq<char> {
    match s {
        BinaryDisplayStyle::Hex => "Hex"@,
        BinaryDisplayStyle::Dec => "Dec"@,
        BinaryDisplayStyle::Oct => "Oct"@,
        BinaryDisplayStyle::Bin => "Bin"@,
    }
}

/// The number of characters a cell of this reading takes.
pub open spec fn width_of(d: DecodeType, s: BinaryDisplayStyle) -> u32 {
    match d {
        DecodeType::Float32 => match s {
            BinaryDisplayStyle::Hex => 8,
            BinaryDisplayStyle::Dec => 10,
            BinaryDisplayStyle::Oct => 11,
            BinaryDisplayStyle::Bin => 32,
        },
        DecodeType::Int24 => match s {
            BinaryDisplayStyle::Hex => 6,
            BinaryDisplayStyle::Dec => 8,
            BinaryDisplayStyle::Oct => 8,
            BinaryDisplayStyle::Bin => 24,
        },
        DecodeType::RealNumber => 10,
    }
}

pub open spec fn style_base(s: BinaryDisplayStyle) -> nat {
    match s {
        BinaryDisplayStyle::Hex => 16,
        BinaryDisplayStyle::Dec => 10,
        BinaryDisplayStyle::Oct => 8,
        BinaryDisplayStyle::Bin => 2,
    }
}

/// Decimal cells are padded with spaces, the others with zeros.
pub open spec fn style_fill(s: BinaryDisplayStyle) -> char {
    match s {
        BinaryDisplayStyle::Dec => ' ',
        _ => '0',
    }
}

/// The text of a binary reading `n`: its digits in the style's radix,
/// padded on the left to the column's width.
pub open spec fn bits_text(n: u32, d: DecodeType, s: BinaryDisplayStyle) -> Seq<char> {
    pad_left(radix_digits(n as nat, style_base(s)), width_of(d, s) as nat, style_fill(s))
}

/// A column's title: its key, the separator, then the reading.
pub open spec fn title_of(key: Seq<char>, sep: Seq<char>, d: DecodeType, s: BinaryDisplayStyle) -> Seq<char> {
    match d {
        DecodeType::Float32 => key + sep + "32bit "@ + style_text(s),
        DecodeType::Int24 => key + sep + "24bit "@ + style_text(s),
        DecodeType::RealNumber => key + sep + "Real Number"@,
    }
}

impl DecodeType {
    pub fn label(&self) -> (r: String)
        ensures
            r@ == decode_type_text(*self),
    {
        match self {
            DecodeType::Float32 => String::from_str("32bit (float)"),
            DecodeType::Int24 => String::from_str("24bit (integer)"),
            DecodeType::RealNumber => String::from_str("Real Number"),
        }
    }
}

impl BinaryDisplayStyle {
    pub fn label(&self) -> (r: String)
        ensures
            r@ == style_text(*self),
    {
        match self {
            BinaryDisplayStyle::Hex => String::from_str("Hex"),
            BinaryDisplayStyle::Dec => String::from_str("Dec"),
            BinaryDisplayStyle::Oct => String::from_str("Oct"),
            BinaryDisplayStyle::Bin => String::from_str("Bin"),
        }
    }
}

/// A column of the digital table: which series, read how; title and width
/// are fixed when the column is added.
#[derive(Clone, Debug)]
pub struct ColumnProperty {
    pub key: String,
    pub decode_type: DecodeType,
    pub display_style: BinaryDisplayStyle,
    pub title: Option<String>,
    pub width: Option<u32>,
}

impl Default for ColumnProperty {
    fn default() -> (r: ColumnProperty)
        ensures
            r.key@ == Seq::<char>::empty(),
            r.decode_type == DecodeType::Float32,
            r.display_style == BinaryDisplayStyle::Hex,
            r.title is None,
            r.width is None,
    {
        ColumnProperty {
            key: String::new(),
            decode_type: DecodeType::Float32,
            display_style: BinaryDisplayStyle::Hex,
            title: None,
            width: None,
        }
    }
}

impl ColumnProperty {
    /// Fixes the title (key and reading on two lines) and the width.
    pub fn added(&mut self)
        ensures
            final(self).key == old(self).key,
            final(self).decode_type == old(self).decode_type,
            final(self).display_style == old(self).display_style,
            final(self).title matches Some(t) && t@ == title_of(
                old(self).key@,
                "\n"@,
                old(self).decode_type,
                old(self).display_style,
            ),
            final(self).width == Some(width_of(old(self).decode_type, old(self).display_style)),
    {
        self.title = Some(self.get_title("\n"));
        self.width = Some(self.get_width());
    }

    pub fn get_title(&self, separator: &str) -> (r: String)
        ensures
            r@ == title_of(self.key@, separator@, self.decode_type, self.display_style),
    {
        let mut s = self.key.clone();
        s.append(separator);
        match self.decode_type {
            DecodeType::Float32 => {
                s.append("32bit ");
                s.append(self.display_style.label().as_str());
            },
            DecodeType::Int24 => {
                s.append("24bit ");
                s.append(self.display_style.label().as_str());
            },
            DecodeType::RealNumber => {
                s.append("Real Number");
            },
        }
        proof {
            assert(s@ =~= title_of(self.key@, separator@, self.decode_type, self.display_style));
        }
        s
    }

    /// The cell text of a binary reading: for `Float32` the sample's bits,
    /// for `Int24` its integer part.
    pub fn format_bits(&self, n: u32) -> (r: String)
        ensures
            r@ == bits_text(n, self.decode_type, self.display_style),
    {
        let base: u32 = match self.display_style {
            BinaryDisplayStyle::Hex => 16,
            BinaryDisplayStyle::Dec => 10,
            BinaryDisplayStyle::Oct => 8,
            BinaryDisplayStyle::Bin => 2,
        };
        let digits = radix_text(n, base);
        let fill = match self.display_style {
            BinaryDisplayStyle::Dec => " ",
            _ => "0",
        };
        proof {
            reveal_strlit(" ");
            reveal_strlit("0");
        }
        pad_text(&digits, self.get_width() as usize, fill)
    }

    pub fn get_width(&self) -> (r: u32)
        ensures
            r == width_of(self.decode_type, self.display_style),
    {
        match self.decode_type {
            DecodeType::Float32 => match self.display_style {
                BinaryDisplayStyle::Hex => 8,
                BinaryDisplayStyle::Dec => 10,
                BinaryDisplayStyle::Oct => 11,
                BinaryDisplayStyle::Bin => 32,
            },
            DecodeType::Int24 => match self.display_style {
                BinaryDisplayStyle::Hex => 6,
                BinaryDisplayStyle::Dec => 8,
                BinaryDisplayStyle::Oct => 8,
                BinaryDisplayStyle::Bin => 24,
            },
            DecodeType::RealNumber => 10,
        }
    }
}

} // verus!
