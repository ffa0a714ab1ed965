use vstd::prelude::*;
use crate::error::DecodeError;
use crate::reader::{le16, le32, lemma_steps, Read, Reader};

verus! {

/// The maker's identifier: three characters, each one of the 32 code units
/// that five bits hold.
#[derive(Debug, Clone, Copy, PartialEq, Eq, Structural)]
pub struct ManufacturerID(pub char, pub char, pub char);

impl ManufacturerID {
    /// The three five-bit units of a word, the highest first. The top bit of
    /// the word belongs to none of them.
    pub open spec fn spec_unpack(word: u16) -> (u8, u8, u8) {
        ((word / 1024 % 32) as u8, (word / 32 % 32) as u8, (word % 32) as u8)
    }

    /// The identifier that three code units make: each unit is the code of
    /// its character, as it stands.
    pub open spec fn spec_from_units(units: (u8, u8, u8)) -> ManufacturerID {
        ManufacturerID(units.0 as char, units.1 as char, units.2 as char)
    }

    /// The identifier that the first two bytes of `b` encode.
    pub open spec fn of(b: Seq<u8>) -> ManufacturerID {
        Self::spec_from_units(Self::spec_unpack(le16(b)))
    }

    /// True where every character is one of the 32 code units.
    pub open spec fn wf(self) -> bool {
        self.0 as int <= 31 && self.1 as int <= 31 && self.2 as int <= 31
    }

    /// Splits a word into its three five-bit units.
    pub fn unpack(word: u16) -> (units: (u8, u8, u8))
        ensures
            units == Self::spec_unpack(word),
            units.0 <= 31,
            units.1 <= 31,
            units.2 <= 31,
    {
        ((word / 1024 % 32) as u8, (word / 32 % 32) as u8, (word % 32) as u8)
    }

    /// Makes the identifier of three code units.
    pub fn from_units(units: (u8, u8, u8)) -> (id: ManufacturerID)
        ensures
            id == Self::spec_from_units(units),
            units.0 <= 31 && units.1 <= 31 && units.2 <= 31 ==> id.wf(),
    {
        ManufacturerID(units.0 as char, units.1 as char, units.2 as char)
    }

    pub fn parse<T: Read>(r: &mut Reader<T>) -> (res: Result<ManufacturerID, DecodeError>)
        ensures
            final(r).follows(old(r)),
            match res {
                Ok(id) => final(r).since(old(r)).len() == 2 && id == Self::of(final(r).since(old(r)))
                    && id.wf(),
                Err(e) => final(r).stopped(old(r), e, 2),
            },
    {
        let word = r.read_u16()?;
        Ok(Self::from_units(Self::unpack(word)))
    }
}

/// When the display was made: the week of the year, and the year.
#[derive(Debug, Clone, Copy, PartialEq, Eq, Structural)]
pub struct ManufactureDate {
    pub week: u8,
    pub year: u16,
}

impl ManufactureDate {
    /// The date that the first two bytes of `b` encode: the week as it
    /// stands, and the year counted from 1990.
    pub open spec fn of(b: Seq<u8>) -> ManufactureDate {
        ManufactureDate { week: b[0], year: (b[1] as int + 1990) as u16 }
    }

    pub fn parse<T: Read>(r: &mut Reader<T>) -> (res: Result<ManufactureDate, DecodeError>)
        ensures
            final(r).follows(old(r)),
            match res {
                Ok(date) => final(r).since(old(r)).len() == 2 && date == Self::of(
                    final(r).since(old(r)),
                ),
                Err(e) => final(r).stopped(old(r), e, 2),
            },
    {
        let b = r.take(2)?;
        Ok(ManufactureDate { week: b[0], year: b[1] as u16 + 1990 })
    }
}

/// The version and revision of the format that the block follows.
#[derive(Debug, Clone, Copy, PartialEq, Eq, Structural)]
pub struct Version {
    pub version: u8,
    pub revision: u8,
}

impl Version {
    /// The version that the first two bytes of `b` encode.
    pub open spec fn of(b: Seq<u8>) -> Version {
        Version { version: b[0], revision: b[1] }
    }

    pub fn parse<T: Read>(r: &mut Reader<T>) -> (res: Result<Version, DecodeError>)
        ensures
            final(r).follows(old(r)),
            match res {
                Ok(v) => final(r).since(old(r)).len() == 2 && v == Self::of(final(r).since(old(r))),
                Err(e) => final(r).stopped(old(r), e, 2),
            },
    {
        let b = r.take(2)?;
        Ok(Version { version: b[0], revision: b[1] })
    }
}

/// What the block says of the product.
#[derive(Debug, Clone, Copy, PartialEq, Eq, Structural)]
pub struct ProductInformation {
    pub manufacturer_id: ManufacturerID,
    pub product_code: u16,
    pub serial_number: u32,
    pub manufacture_date: ManufactureDate,
}

impl ProductInformation {
    /// The product information that the first ten bytes of `b` encode.
    #[verifier::opaque]
    pub open spec fn of(b: Seq<u8>) -> ProductInformation {
        ProductInformation {
            manufacturer_id: ManufacturerID::of(b.subrange(0, 2)),
            product_code: le16(b.subrange(2, 4)),
            serial_number: le32(b.subrange(4, 8)),
            manufacture_date: ManufactureDate::of(b.subrange(8, 10)),
        }
    }

    pub fn parse<T: Read>(r: &mut Reader<T>) -> (res: Result<ProductInformation, DecodeError>)
        ensures
            final(r).follows(old(r)),
            match res {
                Ok(p) => final(r).since(old(r)).len() == 10 && p == Self::of(final(r).since(old(r)))
                    && p.manufacturer_id.wf(),
                Err(e) => final(r).stopped(old(r), e, 10),
            },
    {
        proof {
            reveal(ProductInformation::of);
        }
        let ghost t0 = r.mark();
        let manufacturer_id = ManufacturerID::parse(r)?;
        let ghost t1 = r.mark();
        let code = r.read_u16();
        proof {
            lemma_steps(t0, t1, r.mark());
        }
        let product_code = code?;
        let ghost t2 = r.mark();
        let serial = r.read_u32();
        proof {
            lemma_steps(t0, t2, r.mark());
        }
        let serial_number = serial?;
        let ghost t3 = r.mark();
        let date = ManufactureDate::parse(r);
        proof {
            lemma_steps(t0, t3, r.mark());
        }
        let manufacture_date = date?;
        proof {
            let b = r.mark().since(t0);
            assert(b.subrange(0, 2) =~= t1.since(t0));
            assert(b.subrange(2, 4) =~= t2.since(t1));
            assert(b.subrange(4, 8) =~= t3.since(t2));
            assert(b.subrange(8, 10) =~= r.mark().since(t3));
        }
        Ok(ProductInformation { manufacturer_id, product_code, serial_number, manufacture_date })
    }
}

} // verus!
