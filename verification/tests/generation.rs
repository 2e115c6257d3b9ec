use nbac::config::{Config, Idle, Image, Machine, Runtime, Ssh, State};
use nbac::generation::{
    compute, generation_of_digest, image_tag, message, GenerationError, Inputs, Node,
};
use sha2::{Digest, Sha256};

fn generation_config() -> Config {
    Config {
        machine: Machine::default(),
        image: Image {
            containerfile: "/tmp/nbac/Containerfile".to_string(),
            build_context: None,
            tag_prefix: "nbac-builder".to_string(),
        },
        ssh: Ssh::default(),
        state: State { dir: "/tmp/nbac".to_string() },
        idle: Idle::default(),
        runtime: Runtime::default(),
    }
}

fn plain_inputs() -> Inputs {
    Inputs { containerfile: b"FROM alpine:3.22\n".to_vec(), context: None }
}

fn hashed_field(out: &mut Vec<u8>, name: &str, value: &[u8]) {
    out.extend_from_slice(name.as_bytes());
    out.push(0);
    out.extend_from_slice(&(value.len() as u64).to_be_bytes());
    out.extend_from_slice(value);
}

fn hex12(data: &[u8]) -> String {
    let digest = Sha256::digest(data);
    let text: String = digest.iter().map(|b| format!("{b:02x}")).collect();
    text[..12].to_string()
}

fn context_file(name: &str, contents: &str) -> Node {
    Node::File { name: name.as_bytes().to_vec(), contents: contents.as_bytes().to_vec() }
}

#[test]
fn deterministic() {
    let config = generation_config();
    let inputs = plain_inputs();
    assert_eq!(compute(&config, &inputs).unwrap(), compute(&config, &inputs).unwrap());
    assert_eq!(compute(&config, &inputs).unwrap().len(), 12);
}

#[test]
fn containerfile_change_changes_generation() {
    let config = generation_config();
    let before = compute(&config, &plain_inputs()).unwrap();
    let changed = Inputs { containerfile: b"FROM alpine:3.23\n".to_vec(), context: None };
    assert_ne!(before, compute(&config, &changed).unwrap());
}

#[test]
fn baked_config_change_changes_generation() {
    let mut config = generation_config();
    let before = compute(&config, &plain_inputs()).unwrap();
    config.ssh.user = "other".into();
    assert_ne!(before, compute(&config, &plain_inputs()).unwrap());
}

#[test]
fn rosetta_change_changes_generation() {
    let mut config = generation_config();
    let before = compute(&config, &plain_inputs()).unwrap();
    config.machine.rosetta = true;
    assert_ne!(before, compute(&config, &plain_inputs()).unwrap());
}

#[test]
fn build_context_contents_change_generation() {
    let config = generation_config();
    let tree = |contents: &str| Inputs {
        containerfile: b"FROM alpine:3.22\n".to_vec(),
        context: Some(vec![Node::Dir {
            name: b"sub".to_vec(),
            children: vec![context_file("file", contents)],
        }]),
    };
    let before = compute(&config, &tree("one")).unwrap();
    assert_ne!(before, compute(&config, &tree("two")).unwrap());
}

#[test]
fn tag_uses_prefix() {
    let tag = image_tag(&generation_config(), &plain_inputs()).unwrap();
    assert!(tag.starts_with("nbac-builder:"));
}

#[test]
fn message_lays_out_every_field() {
    let mut expected = b"nbac-generation-v1\0".to_vec();
    hashed_field(&mut expected, "containerfile", b"FROM alpine:3.22\n");
    hashed_field(&mut expected, "ssh.user", b"builder");
    hashed_field(&mut expected, "ssh.port", &22u16.to_be_bytes());
    hashed_field(&mut expected, "machine.arch", b"arm64");
    assert_eq!(message(&generation_config(), &plain_inputs()).unwrap(), expected);
}

#[test]
fn generation_is_the_digest_prefix() {
    let config = generation_config();
    let msg = message(&config, &plain_inputs()).unwrap();
    assert_eq!(compute(&config, &plain_inputs()).unwrap(), hex12(&msg));
    assert_eq!(
        image_tag(&config, &plain_inputs()).unwrap(),
        format!("nbac-builder:{}", hex12(&msg))
    );
}

#[test]
fn digest_prefix_is_lowercase_hex() {
    let digest = [0xab, 0xcd, 0x01, 0x23, 0x45, 0x67, 0x89, 0xef];
    assert_eq!(generation_of_digest(&digest), "abcd01234567");
}

#[test]
fn context_entries_are_hashed_in_name_order() {
    let config = generation_config();
    let inputs = Inputs {
        containerfile: b"FROM x\n".to_vec(),
        context: Some(vec![
            context_file("b", "2"),
            Node::Symlink { name: b"link".to_vec(), target: b"b".to_vec() },
            Node::Dir { name: b"a".to_vec(), children: vec![context_file("c", "3")] },
        ]),
    };
    let mut expected = b"nbac-generation-v1\0".to_vec();
    hashed_field(&mut expected, "containerfile", b"FROM x\n");
    hashed_field(&mut expected, "dir", b"a");
    hashed_field(&mut expected, "file", b"a/c");
    hashed_field(&mut expected, "contents", b"3");
    hashed_field(&mut expected, "file", b"b");
    hashed_field(&mut expected, "contents", b"2");
    hashed_field(&mut expected, "symlink", b"link");
    hashed_field(&mut expected, "target", b"b");
    hashed_field(&mut expected, "ssh.user", b"builder");
    hashed_field(&mut expected, "ssh.port", &22u16.to_be_bytes());
    hashed_field(&mut expected, "machine.arch", b"arm64");
    assert_eq!(message(&config, &inputs).unwrap(), expected);

    let reordered = Inputs {
        containerfile: b"FROM x\n".to_vec(),
        context: Some(vec![
            Node::Dir { name: b"a".to_vec(), children: vec![context_file("c", "3")] },
            Node::Symlink { name: b"link".to_vec(), target: b"b".to_vec() },
            context_file("b", "2"),
        ]),
    };
    assert_eq!(compute(&config, &inputs).unwrap(), compute(&config, &reordered).unwrap());
}

#[test]
fn unsupported_entries_are_reported_by_relative_path() {
    let inputs = Inputs {
        containerfile: b"FROM x\n".to_vec(),
        context: Some(vec![Node::Dir {
            name: b"sub".to_vec(),
            children: vec![Node::Other { name: b"fifo".to_vec() }],
        }]),
    };
    match compute(&generation_config(), &inputs) {
        Err(GenerationError::UnsupportedFileType { path }) => assert_eq!(path, "sub/fifo"),
        other => panic!("unexpected {other:?}"),
    }
    assert!(image_tag(&generation_config(), &inputs).is_err());
}

#[test]
fn empty_context_adds_nothing() {
    let config = generation_config();
    let empty = Inputs { containerfile: b"FROM alpine:3.22\n".to_vec(), context: Some(vec![]) };
    assert_eq!(compute(&config, &empty).unwrap(), compute(&config, &plain_inputs()).unwrap());
}
