use bytevec::errors::ByteVecError;
use bytevec::{BVSize, ByteDecodable, ByteEncodable};
use std::collections::{HashMap, HashSet};

#[derive(PartialEq, Eq, Debug)]
struct Profile {
    id: u32,
    name: String,
    last_name: String,
}

#[derive(PartialEq, Eq, Debug)]
struct Employee {
    id: u32,
    profile: Profile,
    dept: String,
}

#[derive(PartialEq, Eq, Debug)]
struct MeetingsLog {
    id: u32,
    owner: String,
    meetings: HashMap<String, String>,
}

impl ByteEncodable for Profile {
    fn get_size<Size>(&self) -> Option<Size>
    where
        Size: BVSize,
    {
        (&self.id, &self.name, &self.last_name).get_size::<Size>()
    }

    fn encode<Size>(&self) -> Result<Vec<u8>, ByteVecError>
    where
        Size: BVSize,
    {
        (&self.id, &self.name, &self.last_name).encode::<Size>()
    }
}

impl ByteDecodable for Profile {
    fn decode<Size>(bytes: &[u8]) -> Result<Profile, ByteVecError>
    where
        Size: BVSize,
    {
        let (id, name, last_name) = <(u32, String, String)>::decode::<Size>(bytes)?;
        Ok(Profile { id, name, last_name })
    }
}

impl ByteEncodable for Employee {
    fn get_size<Size>(&self) -> Option<Size>
    where
        Size: BVSize,
    {
        (&self.id, &self.profile, &self.dept).get_size::<Size>()
    }

    fn encode<Size>(&self) -> Result<Vec<u8>, ByteVecError>
    where
        Size: BVSize,
    {
        (&self.id, &self.profile, &self.dept).encode::<Size>()
    }
}

impl ByteDecodable for Employee {
    fn decode<Size>(bytes: &[u8]) -> Result<Employee, ByteVecError>
    where
        Size: BVSize,
    {
        let (id, profile, dept) = <(u32, Profile, String)>::decode::<Size>(bytes)?;
        Ok(Employee { id, profile, dept })
    }
}

impl ByteEncodable for MeetingsLog {
    fn get_size<Size>(&self) -> Option<Size>
    where
        Size: BVSize,
    {
        (&self.id, &self.owner, &self.meetings).get_size::<Size>()
    }

    fn encode<Size>(&self) -> Result<Vec<u8>, ByteVecError>
    where
        Size: BVSize,
    {
        (&self.id, &self.owner, &self.meetings).encode::<Size>()
    }
}

impl ByteDecodable for MeetingsLog {
    fn decode<Size>(bytes: &[u8]) -> Result<MeetingsLog, ByteVecError>
    where
        Size: BVSize,
    {
        let (id, owner, meetings) =
            <(u32, String, HashMap<String, String>)>::decode::<Size>(bytes)?;
        Ok(MeetingsLog { id, owner, meetings })
    }
}

#[test]
fn test_serialize_vec() {
    let employees_1 = vec![
        Employee {
            id: 1,
            profile: Profile {
                id: 10000,
                name: "Michael".to_string(),
                last_name: "Jackson".to_string(),
            },
            dept: "music".to_string(),
        },
        Employee {
            id: 2,
            profile: Profile {
                id: 10001,
                name: "John".to_string(),
                last_name: "Cena".to_string(),
            },
            dept: "wrestling".to_string(),
        },
    ];
    let bytes = employees_1.encode::<u32>().unwrap();
    let employees_2 = Vec::<Employee>::decode::<u32>(&bytes).unwrap();
    assert_eq!(employees_1, employees_2);
}

#[test]
fn test_serialize_slices() {
    let slice = &['1', '2', '3'];
    let bytes = slice.encode::<u32>().unwrap();
    let vec = Vec::<char>::decode::<u32>(&bytes).unwrap();
    assert_eq!(vec, slice);
}

#[test]
fn test_serialize_set() {
    let mut set_1 = HashSet::new();
    set_1.insert(("One!".to_string(), 1u32));
    set_1.insert(("Two!".to_string(), 2));
    set_1.insert(("Three!".to_string(), 3));
    let bytes = set_1.encode::<u32>().unwrap();
    let set_2 = HashSet::decode::<u32>(&bytes).unwrap();
    assert_eq!(set_1, set_2);
}

#[test]
fn test_serialize_map() {
    let mut classes_1 = HashMap::new();
    classes_1.insert(101usize, "Programming 1".to_string());
    classes_1.insert(102, "Basic CS".to_string());
    let bytes = classes_1.encode::<u32>().unwrap();
    let classes_2 = HashMap::decode::<u32>(&bytes).unwrap();
    assert_eq!(classes_1, classes_2);
}

#[test]
fn test_serialize_slice_with_map_containers() {
    let slice = &[
        MeetingsLog {
            id: 1,
            owner: "Jack".to_string(),
            meetings: {
                let mut meetings_jack = HashMap::new();
                meetings_jack.insert("New York".to_string(), "Michael".to_string());
                meetings_jack.insert("Nippon".to_string(), "Koichi".to_string());
                meetings_jack
            },
        },
        MeetingsLog {
            id: 2,
            owner: "Juan".to_string(),
            meetings: {
                let mut meeting_juan = HashMap::new();
                meeting_juan.insert("España".to_string(), "José".to_string());
                meeting_juan.insert("Korea".to_string(), "Lee Hyun".to_string());
                meeting_juan
            },
        },
    ];

    let bytes = slice.encode::<u32>().unwrap();
    let vec = Vec::<MeetingsLog>::decode::<u32>(&bytes).unwrap();
    assert_eq!(vec, slice);
}

#[test]
fn test_serialize_vec_every_width() {
    let profile = Profile { id: 7, name: "Ada".to_string(), last_name: "Lovelace".to_string() };
    let employees = vec![Employee { id: 3, profile, dept: "engines".to_string() }];
    let narrow = employees.encode::<u8>().unwrap();
    assert_eq!(Vec::<Employee>::decode::<u8>(&narrow).unwrap(), employees);
    let short = employees.encode::<u16>().unwrap();
    assert_eq!(Vec::<Employee>::decode::<u16>(&short).unwrap(), employees);
    let wide = employees.encode::<u64>().unwrap();
    assert_eq!(Vec::<Employee>::decode::<u64>(&wide).unwrap(), employees);
    assert!(narrow.len() < short.len() && short.len() < wide.len());
}

#[derive(PartialEq, Eq, Debug)]
struct Account {
    id: u32,
    name: String,
}

impl ByteEncodable for Account {
    fn get_size<Size>(&self) -> Option<Size>
    where
        Size: BVSize,
    {
        (&self.id, &self.name).get_size::<Size>()
    }

    fn encode<Size>(&self) -> Result<Vec<u8>, ByteVecError>
    where
        Size: BVSize,
    {
        (&self.id, &self.name).encode::<Size>()
    }
}

impl ByteDecodable for Account {
    fn decode<Size>(bytes: &[u8]) -> Result<Account, ByteVecError>
    where
        Size: BVSize,
    {
        let (id, name) = <(u32, String)>::decode::<Size>(bytes)?;
        Ok(Account { id, name })
    }
}

#[test]
fn test_record_layout() {
    let account = Account { id: 32, name: "abc".to_string() };
    let bytes = account.encode::<u32>().unwrap();
    assert_eq!(bytes, vec![4, 0, 0, 0, 3, 0, 0, 0, 32, 0, 0, 0, 97, 98, 99]);
    assert_eq!(account.get_size::<u32>(), Some(15));
    assert_eq!(Account::decode::<u32>(&bytes).unwrap(), account);
    let narrow = account.encode::<u8>().unwrap();
    assert_eq!(narrow, vec![4, 3, 32, 0, 0, 0, 97, 98, 99]);
    assert_eq!(Account::decode::<u8>(&narrow).unwrap(), account);
}

#[derive(PartialEq, Eq, Debug, Default)]
struct Vertex3d {
    x: u32,
    y: u32,
    z: u32,
}

impl ByteEncodable for Vertex3d {
    fn get_size<Size>(&self) -> Option<Size>
    where
        Size: BVSize,
    {
        (&self.x, &self.y).get_size::<Size>()
    }

    fn encode<Size>(&self) -> Result<Vec<u8>, ByteVecError>
    where
        Size: BVSize,
    {
        (&self.x, &self.y).encode::<Size>()
    }
}

impl ByteDecodable for Vertex3d {
    fn decode<Size>(bytes: &[u8]) -> Result<Vertex3d, ByteVecError>
    where
        Size: BVSize,
    {
        let (x, y) = <(u32, u32)>::decode::<Size>(bytes)?;
        Ok(Vertex3d { x, y, ..Default::default() })
    }
}

#[test]
fn test_record_with_unlisted_field() {
    let flat = Vertex3d { x: 32, y: 436, z: 0 };
    let bytes = flat.encode::<u32>().unwrap();
    assert_eq!(bytes.len(), 16);
    let copy = Vertex3d::decode::<u32>(&bytes).unwrap();
    assert_eq!(flat, copy);
    let raised = Vertex3d { x: 1, y: 2, z: 3 };
    let back = Vertex3d::decode::<u32>(&raised.encode::<u32>().unwrap()).unwrap();
    assert_eq!(back, Vertex3d { x: 1, y: 2, z: 0 });
}

#[test]
fn test_record_decode_max() {
    let account = Account { id: 32, name: "abc".to_string() };
    let bytes = account.encode::<u32>().unwrap();
    assert_eq!(Account::decode_max::<u32>(&bytes, 15).unwrap(), account);
    match Account::decode_max::<u32>(&bytes, 14) {
        Err(ByteVecError::BadSizeDecodeError { expected, actual }) => {
            assert!(matches!(expected, bytevec::errors::BVExpectedSize::LessOrEqualThan(14)));
            assert_eq!(actual, 15);
        }
        other => panic!("unexpected outcome: {:?}", other),
    }
}
