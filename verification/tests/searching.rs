use jars::{
    search_exact, search_many, select_exact, Candidate, ClassPat, ClassRecord, Descriptor, Error,
    JarEntry, Match, MemberPat, MemberRecord, TypePat,
};

const PUBLIC: u16 = 0x0001;
const PRIVATE: u16 = 0x0002;
const FINAL: u16 = 0x0010;
const SUPER: u16 = 0x0020;

struct Pool {
    bytes: Vec<u8>,
    count: u16,
}

impl Pool {
    fn new() -> Pool {
        Pool { bytes: Vec::new(), count: 1 }
    }

    fn text(&mut self, text: &str) -> u16 {
        self.bytes.push(1);
        self.bytes.extend_from_slice(&(text.len() as u16).to_be_bytes());
        self.bytes.extend_from_slice(text.as_bytes());
        self.count += 1;
        self.count - 1
    }

    fn class(&mut self, name: &str) -> u16 {
        let name = self.text(name);
        self.bytes.push(7);
        self.bytes.extend_from_slice(&name.to_be_bytes());
        self.count += 1;
        self.count - 1
    }
}

fn members(pool: &mut Pool, members: &[(u16, &str, &str)]) -> Vec<u8> {
    let mut out = Vec::new();
    out.extend_from_slice(&(members.len() as u16).to_be_bytes());
    for (flags, name, descriptor) in members {
        out.extend_from_slice(&flags.to_be_bytes());
        out.extend_from_slice(&pool.text(name).to_be_bytes());
        out.extend_from_slice(&pool.text(descriptor).to_be_bytes());
        out.extend_from_slice(&0u16.to_be_bytes());
    }
    out
}

fn class_file(
    flags: u16,
    name: &str,
    super_class: Option<&str>,
    interfaces: &[&str],
    fields: &[(u16, &str, &str)],
    methods: &[(u16, &str, &str)],
) -> Vec<u8> {
    let mut pool = Pool::new();
    let mut body = Vec::new();
    body.extend_from_slice(&flags.to_be_bytes());
    body.extend_from_slice(&pool.class(name).to_be_bytes());
    let super_index = match super_class {
        Some(name) => pool.class(name),
        None => 0,
    };
    body.extend_from_slice(&super_index.to_be_bytes());
    body.extend_from_slice(&(interfaces.len() as u16).to_be_bytes());
    for interface in interfaces {
        body.extend_from_slice(&pool.class(interface).to_be_bytes());
    }
    body.extend(members(&mut pool, fields));
    body.extend(members(&mut pool, methods));
    body.extend_from_slice(&0u16.to_be_bytes());

    let mut out = vec![0xca, 0xfe, 0xba, 0xbe, 0, 0, 0, 52];
    out.extend_from_slice(&pool.count.to_be_bytes());
    out.extend(pool.bytes);
    out.extend(body);
    out
}

fn shape(n: usize) -> Vec<u8> {
    let methods: Vec<(u16, &str, &str)> =
        ["a", "b", "c", "d"].iter().take(n).map(|name| (PUBLIC, *name, "()V")).collect();
    class_file(PUBLIC | SUPER, "x/Y", Some("java/lang/Object"), &[], &[], &methods)
}

fn shape_pattern(n: usize) -> ClassPat {
    let mut pat = ClassPat::default().public();
    for _ in 0..n {
        pat = pat.with(MemberPat::Method { flags: PUBLIC, param_types: vec![], ret_type: TypePat::Void });
    }
    pat
}

fn decode(bytes: &[u8]) -> Result<ClassRecord, cafebabe::ParseError> {
    let class = cafebabe::parse_class(bytes)?;
    Ok(ClassRecord {
        access_flags: class.access_flags.bits(),
        this_class: class.this_class.into_owned(),
        super_class: class.super_class.map(|name| name.into_owned()),
        interfaces: class.interfaces.into_iter().map(|name| name.into_owned()).collect(),
        methods: class
            .methods
            .into_iter()
            .map(|m| MemberRecord::new(m.access_flags.bits(), m.descriptor.into_owned()))
            .collect(),
        fields: class
            .fields
            .into_iter()
            .map(|f| MemberRecord::new(f.access_flags.bits(), f.descriptor.into_owned()))
            .collect(),
    })
}

fn candidate(bytes: Vec<u8>) -> Candidate {
    let class = decode(&bytes);
    Candidate::new(JarEntry::new(bytes), class)
}

fn entries(shapes: &[usize]) -> Vec<Candidate> {
    shapes.iter().map(|n| candidate(shape(*n))).collect()
}

fn patterns(shapes: &[usize]) -> Vec<ClassPat> {
    shapes.iter().map(|n| shape_pattern(*n)).collect()
}

fn found(matches: &[Match]) -> Vec<(Vec<u8>, usize)> {
    matches.iter().map(|m| (m.entry.bytes().to_vec(), m.pattern)).collect()
}

fn entry(tag: u8) -> JarEntry {
    JarEntry::new(vec![tag])
}

fn tags(entries: &[JarEntry]) -> Vec<u8> {
    entries.iter().map(|e| e.bytes()[0]).collect()
}

#[test]
fn an_entry_keeps_its_bytes() {
    let entry = JarEntry::new(vec![1, 2, 3]);
    assert_eq!(entry.bytes(), &[1, 2, 3]);
}

#[test]
fn a_candidate_keeps_its_entry_and_its_class() {
    let bytes = class_file(
        PUBLIC | FINAL | SUPER,
        "a/b/Main",
        Some("a/b/Base"),
        &["java/lang/Runnable", "a/b/Named"],
        &[(PRIVATE, "count", "I"), (PUBLIC | FINAL, "name", "Ljava/lang/String;")],
        &[(PUBLIC, "run", "()V"), (PRIVATE, "sum", "([IJ)J")],
    );
    let candidate = candidate(bytes.clone());
    assert_eq!(candidate.entry.bytes(), &bytes[..]);
    let class = candidate.class.unwrap();
    assert_eq!(class.access_flags, PUBLIC | FINAL | SUPER);
    assert_eq!(class.this_class, "a/b/Main");
    assert_eq!(class.super_class.as_deref(), Some("a/b/Base"));
    assert_eq!(class.interfaces, vec!["java/lang/Runnable", "a/b/Named"]);
    assert_eq!(class.fields.len(), 2);
    assert_eq!(class.fields[1].access_flags, PUBLIC | FINAL);
    assert_eq!(class.fields[1].descriptor, "Ljava/lang/String;");
    assert_eq!(class.methods.len(), 2);
    assert_eq!(class.methods[1].access_flags, PRIVATE);
    assert_eq!(class.methods[1].descriptor, "([IJ)J");
}

#[test]
fn a_search_takes_classes_from_any_source() {
    let class = ClassRecord {
        access_flags: PUBLIC,
        this_class: "x/Y".to_string(),
        super_class: None,
        interfaces: vec![],
        methods: vec![MemberRecord::new(PUBLIC, "()V".to_string())],
        fields: vec![],
    };
    let candidates = vec![Candidate::new(entry(7), Ok(class))];
    let matches = search_many(candidates, &patterns(&[0, 1])).unwrap();
    assert_eq!(found(&matches), vec![(vec![7], 1)]);
}

#[test]
fn search_many_records_the_first_pattern_of_each_entry() {
    let pats = vec![shape_pattern(2), ClassPat::default().public(), shape_pattern(0)];
    let matches = search_many(entries(&[0, 2, 1, 2]), &pats).unwrap();
    assert_eq!(found(&matches), vec![(shape(0), 1), (shape(2), 0), (shape(2), 0)]);
}

#[test]
fn search_many_leaves_out_what_matches_nothing() {
    let matches = search_many(entries(&[3, 1, 3]), &patterns(&[0, 1])).unwrap();
    assert_eq!(found(&matches), vec![(shape(1), 1)]);
    assert!(search_many(entries(&[1, 2]), &[]).unwrap().is_empty());
    assert!(search_many(Vec::new(), &patterns(&[0])).unwrap().is_empty());
}

#[test]
fn search_many_stops_at_what_is_no_class_file() {
    let mut all = entries(&[0, 1]);
    all.push(candidate(vec![1, 2, 3]));
    assert!(matches!(search_many(all, &patterns(&[0, 1])), Err(Error::ClassError(_))));

    let mut all = vec![candidate(Vec::new())];
    all.extend(entries(&[0]));
    assert!(matches!(search_exact(all, &patterns(&[0])), Err(Error::ClassError(_))));
}

#[test]
fn a_search_fails_with_the_error_of_the_first_bad_candidate() {
    let empty = Vec::new();
    let no_magic = vec![0xca, 0xfe, 0xba, 0xbf];
    let mut cut = shape(1);
    cut.pop();
    assert_ne!(decode(&empty).unwrap_err(), decode(&no_magic).unwrap_err());
    assert_ne!(decode(&no_magic).unwrap_err(), decode(&cut).unwrap_err());

    let all = vec![candidate(shape(0)), candidate(no_magic.clone()), candidate(empty.clone())];
    match search_many(all, &patterns(&[0])) {
        Err(Error::ClassError(error)) => assert_eq!(error, decode(&no_magic).unwrap_err()),
        other => panic!("{:?}", other),
    }

    let all = vec![candidate(cut.clone()), candidate(shape(3)), candidate(empty)];
    match search_exact(all, &patterns(&[3])) {
        Err(Error::ClassError(error)) => assert_eq!(error, decode(&cut).unwrap_err()),
        other => panic!("{:?}", other),
    }
}

#[test]
fn search_exact_orders_entries_by_pattern() {
    let result = search_exact(entries(&[4, 2, 0, 3, 1]), &patterns(&[1, 2, 3])).unwrap();
    let bytes: Vec<Vec<u8>> = result.iter().map(|e| e.bytes().to_vec()).collect();
    assert_eq!(bytes, vec![shape(1), shape(2), shape(3)]);

    let result = search_exact(entries(&[1, 2]), &patterns(&[2, 1])).unwrap();
    let bytes: Vec<Vec<u8>> = result.iter().map(|e| e.bytes().to_vec()).collect();
    assert_eq!(bytes, vec![shape(2), shape(1)]);

    assert!(search_exact(entries(&[1, 2]), &[]).unwrap().is_empty());
}

#[test]
fn search_exact_reports_the_pattern_that_is_not_found() {
    assert!(matches!(
        search_exact(entries(&[0, 2]), &patterns(&[0, 1, 2])),
        Err(Error::PatternNotFound(1))
    ));
    assert!(matches!(
        search_exact(entries(&[0, 1]), &patterns(&[0, 1, 2])),
        Err(Error::PatternNotFound(2))
    ));
    assert!(matches!(
        search_exact(Vec::new(), &patterns(&[3])),
        Err(Error::PatternNotFound(0))
    ));
}

#[test]
fn search_exact_reports_the_pattern_that_is_matched_twice() {
    assert!(matches!(
        search_exact(entries(&[0, 1, 1, 2]), &patterns(&[0, 1, 2])),
        Err(Error::TooManyMatches(1))
    ));
    assert!(matches!(
        search_exact(entries(&[2, 2, 2]), &patterns(&[2])),
        Err(Error::TooManyMatches(0))
    ));
}

#[test]
fn search_exact_reports_the_first_pattern_that_is_off() {
    assert!(matches!(
        search_exact(entries(&[0, 0, 2]), &patterns(&[0, 1, 2])),
        Err(Error::TooManyMatches(0))
    ));
    assert!(matches!(
        search_exact(entries(&[1, 2, 2]), &patterns(&[0, 1, 2])),
        Err(Error::PatternNotFound(0))
    ));
}

#[test]
fn a_class_counts_for_its_first_pattern_only() {
    let loose = ClassPat::default().with(MemberPat::Method {
        flags: 0,
        param_types: vec![],
        ret_type: TypePat::Void,
    });
    let pats = vec![loose, shape_pattern(1)];
    assert_eq!(found(&search_many(entries(&[1]), &pats).unwrap()), vec![(shape(1), 0)]);
    assert!(matches!(
        search_exact(entries(&[1, 1]), &pats),
        Err(Error::TooManyMatches(0))
    ));
    assert!(matches!(
        search_exact(entries(&[1]), &pats),
        Err(Error::PatternNotFound(1))
    ));
    let pats = vec![shape_pattern(1), ClassPat::default().public()];
    let result = search_exact(entries(&[0, 1]), &pats).unwrap();
    let bytes: Vec<Vec<u8>> = result.iter().map(|e| e.bytes().to_vec()).collect();
    assert_eq!(bytes, vec![shape(1), shape(0)]);
}

#[test]
fn select_exact_places_each_entry_at_its_pattern() {
    let matches = vec![
        Match { entry: entry(30), pattern: 2 },
        Match { entry: entry(10), pattern: 0 },
        Match { entry: entry(20), pattern: 1 },
    ];
    assert_eq!(tags(&select_exact(matches, 3).unwrap()), vec![10, 20, 30]);
    assert!(select_exact(Vec::new(), 0).unwrap().is_empty());
}

#[test]
fn select_exact_reports_the_first_fault() {
    let matches = vec![
        Match { entry: entry(1), pattern: 2 },
        Match { entry: entry(2), pattern: 0 },
        Match { entry: entry(3), pattern: 2 },
    ];
    assert!(matches!(select_exact(matches, 3), Err(Error::PatternNotFound(1))));

    let matches = vec![
        Match { entry: entry(1), pattern: 1 },
        Match { entry: entry(2), pattern: 0 },
        Match { entry: entry(3), pattern: 1 },
    ];
    assert!(matches!(select_exact(matches, 3), Err(Error::TooManyMatches(1))));

    let matches = vec![Match { entry: entry(1), pattern: 0 }];
    assert!(matches!(select_exact(matches, 2), Err(Error::PatternNotFound(1))));
}

#[test]
fn patterns_read_the_descriptors_of_a_parsed_class() {
    let bytes = class_file(
        PUBLIC | SUPER,
        "q/R",
        Some("q/Base"),
        &["q/Named"],
        &[(PRIVATE, "size", "J")],
        &[(PUBLIC, "get", "(I)Ljava/lang/String;")],
    );
    let pat = ClassPat::default()
        .public()
        .with_base(TypePat::Match(Descriptor::Object("q/Base")))
        .with_impl(TypePat::Match(Descriptor::Object("q/Named")))
        .with(MemberPat::Method {
            flags: PUBLIC,
            param_types: vec![TypePat::Match(Descriptor::Integer)],
            ret_type: TypePat::Match(Descriptor::Object("java/lang/String")),
        })
        .with(MemberPat::Field { flags: PRIVATE, field_type: TypePat::Match(Descriptor::Long) });
    let result = search_exact(vec![candidate(shape(1)), candidate(bytes.clone())], &[pat]);
    assert_eq!(result.unwrap()[0].bytes(), &bytes[..]);
}
