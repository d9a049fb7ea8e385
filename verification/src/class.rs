//! Parsed class files, as far as a search reads them, and the archive
//! entries that they are parsed from. Parsing itself is the caller's part.

use vstd::prelude::*;

use crate::text::string_bytes;

verus! {

/// A method or field of a class as a mathematical value.
pub struct MemberRecordView {
    pub access_flags: u16,
    /// The descriptor as it stands in the class file, not yet parsed.
    pub descriptor: Seq<u8>,
}

/// A method or field of a class: its access flags and its raw descriptor.
#[derive(Debug, Clone)]
pub struct MemberRecord {
    pub access_flags: u16,
    pub descriptor: String,
}

impl View for MemberRecord {
    type V = MemberRecordView;

    open spec fn view(&self) -> MemberRecordView {
        MemberRecordView {
            access_flags: self.access_flags,
            descriptor: string_bytes(self.descriptor),
        }
    }
}

impl MemberRecord {
    /// A member with the given flags and raw descriptor.
    pub fn new(access_flags: u16, descriptor: String) -> (r: Self)
        ensures
            r.access_flags == access_flags,
            r.descriptor == descriptor,
    {
        MemberRecord { access_flags, descriptor }
    }
}

/// A class as a mathematical value: names are byte strings.
pub struct ClassRecordView {
    pub access_flags: u16,
    pub this_class: Seq<u8>,
    pub super_class: Option<Seq<u8>>,
    pub interfaces: Seq<Seq<u8>>,
    pub methods: Seq<MemberRecordView>,
    pub fields: Seq<MemberRecordView>,
}

/// What a search reads of a parsed class file. Methods and fields stand in
/// the order of their declaration.
#[derive(Debug, Clone)]
pub struct ClassRecord {
    pub access_flags: u16,
    pub this_class: String,
    pub super_class: Option<String>,
    pub interfaces: Vec<String>,
    pub methods: Vec<MemberRecord>,
    pub fields: Vec<MemberRecord>,
}

impl View for ClassRecord {
    type V = ClassRecordView;

    open spec fn view(&self) -> ClassRecordView {
        ClassRecordView {
            access_flags: self.access_flags,
            this_class: string_bytes(self.this_class),
            super_class: match self.super_class {
                Some(name) => Some(string_bytes(name)),
                None => None,
            },
            interfaces: self.interfaces@.map_values(|name: String| string_bytes(name)),
            methods: self.methods@.map_values(|m: MemberRecord| m@),
            fields: self.fields@.map_values(|f: MemberRecord| f@),
        }
    }
}

/// The bytes of one entry of an archive: a candidate class file.
#[derive(Debug)]
pub struct JarEntry(Vec<u8>);

impl View for JarEntry {
    type V = Seq<u8>;

    closed spec fn view(&self) -> Seq<u8> {
        self.0@
    }
}

impl JarEntry {
    /// An entry that holds the given bytes.
    pub fn new(bytes: Vec<u8>) -> (r: Self)
        ensures
            r@ == bytes@,
    {
        JarEntry(bytes)
    }

    /// The bytes of this entry.
    pub fn bytes(&self) -> (r: &[u8])
        ensures
            r@ == self@,
    {
        self.0.as_slice()
    }
}

/// A candidate of a search as a mathematical value.
pub struct CandidateView {
    /// The bytes of the entry.
    pub entry: Seq<u8>,
    /// The class that the entry was parsed to, or the parser's error.
    pub class: Result<ClassRecordView, cafebabe::ParseError>,
}

/// An entry of an archive together with what came of parsing it as a class
/// file: the class, or the error of the parser.
///
/// Parsing is left to the caller. A search takes whatever came of it and is
/// defined for either outcome.
#[derive(Debug)]
pub struct Candidate {
    pub entry: JarEntry,
    pub class: Result<ClassRecord, cafebabe::ParseError>,
}

impl View for Candidate {
    type V = CandidateView;

    open spec fn view(&self) -> CandidateView {
        CandidateView {
            entry: self.entry@,
            class: match self.class {
                Ok(class) => Ok(class@),
                Err(e) => Err(e),
            },
        }
    }
}

impl Candidate {
    /// A candidate from an entry and the outcome of parsing it.
    pub fn new(entry: JarEntry, class: Result<ClassRecord, cafebabe::ParseError>) -> (r: Self)
        ensures
            r.entry == entry,
            r.class == class,
    {
        Candidate { entry, class }
    }
}

} // verus!
