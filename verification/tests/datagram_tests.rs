use hamesh::control_datagram::ControlDatagram;
use hamesh::fragment_handler::FragmentHandler;
use hamesh::settings_models::{ClientDataSettings, Protocol};
use serde_json::Value;

/// The JSON text of a control datagram, as the peers exchange it.
fn to_json(datagram: &ControlDatagram) -> String {
    let mut content = serde_json::Map::new();
    for (key, value) in datagram.content.pairs() {
        content.insert(key.clone(), Value::String(value.clone()));
    }
    let mut object = serde_json::Map::new();
    object.insert("version".to_string(), Value::from(datagram.version));
    object.insert("type".to_string(), Value::String(datagram.kind.clone()));
    object.insert("content".to_string(), Value::Object(content));
    serde_json::to_string(&Value::Object(object)).unwrap()
}

/// Serialized size of a control datagram.
fn serialized_len(datagram: &ControlDatagram) -> usize {
    to_json(datagram).len()
}

/// Splits a datagram into fragments of at most `datagram_max_size` bytes.
fn fragments(datagram: &ControlDatagram, datagram_max_size: u16) -> Vec<ControlDatagram> {
    let empty_fragment_size = serialized_len(&ControlDatagram::empty_fragment());
    let json = to_json(datagram);
    assert!(ControlDatagram::fragmentable(&json, datagram_max_size, empty_fragment_size));
    ControlDatagram::fragments_of_json(&json, datagram_max_size, empty_fragment_size)
}

fn field(datagram: &ControlDatagram, key: &str) -> String {
    datagram.content.get(key).unwrap().clone()
}

#[allow(deprecated)]
fn client_data_with(i: usize) -> ControlDatagram {
    let data = vec![2; 10_000 + i];
    let encoded_data = base64::encode(&data);
    ControlDatagram::client_data(
        "0001",
        0,
        ClientDataSettings {
            protocol: Protocol::Tcp,
            host_port: 80,
            host_client_port: 49152,
        },
        &encoded_data,
    )
}

#[test]
fn fragmentation_results_in_correct_size() {
    for i in 0..1500 {
        let client_data_datagram = client_data_with(i);
        let max_fragment_size = 1400;
        let fragments = fragments(&client_data_datagram, max_fragment_size as u16);
        assert!(fragments.len() >= 1);
        for fragment in &fragments[..fragments.len() - 1] {
            assert!(
                serialized_len(fragment) == max_fragment_size
                    || serialized_len(fragment) == max_fragment_size - 1
            );
        }
        assert!(&serialized_len(fragments.last().unwrap()) <= &max_fragment_size);
    }
}

#[test]
fn fragmentation_data_integrity() {
    for i in 0..1500 {
        let client_data_datagram = client_data_with(i);
        let max_fragment_size = 1400;
        let fragments = fragments(&client_data_datagram, max_fragment_size as u16);
        assert!(fragments.len() >= 1);
        let mut data = "".to_string();
        for fragment in &fragments[..fragments.len() - 1] {
            assert!(
                serialized_len(fragment) == max_fragment_size
                    || serialized_len(fragment) == max_fragment_size - 1
            );
            data.push_str(&field(fragment, "data"))
        }
        assert!(&serialized_len(fragments.last().unwrap()) <= &max_fragment_size);
        data.push_str(&field(fragments.last().unwrap(), "data"));

        serde_json::from_str::<Value>(&data)
            .map_err(|e| panic!("error for: {data}\n{e}"))
            .unwrap();
        assert_eq!(data, to_json(&client_data_datagram));
    }
}

#[test]
fn fragments_carry_index_length_digest_and_type() {
    let datagram = client_data_with(0);
    let fragments = fragments(&datagram, 1400);
    let n = fragments.len();
    assert!(n > 1);
    let digest = field(&fragments[0], "digest");
    assert_eq!(digest.len(), 64);
    assert!(digest.chars().all(|c| c.is_ascii_hexdigit() && !c.is_ascii_uppercase()));
    for (i, fragment) in fragments.iter().enumerate() {
        assert_eq!(fragment.version, 1);
        assert_eq!(fragment.kind, "fragment");
        assert_eq!(field(fragment, "contentType"), "control_datagram");
        assert_eq!(field(fragment, "index"), format!("{:0>5}", i));
        assert_eq!(field(fragment, "length"), format!("{:0>5}", n));
        assert_eq!(field(fragment, "digest"), digest);
    }
}

#[test]
fn fragment_digest_is_sha256_of_quote_marked_json() {
    let datagram = ControlDatagram::syn();
    let json = to_json(&datagram);
    let fragments = fragments(&datagram, 1400);
    assert_eq!(fragments.len(), 1);
    let marked = json.replace('"', "\0\"");
    assert_eq!(field(&fragments[0], "digest"), sha256::digest(marked.as_str()));
    assert_eq!(field(&fragments[0], "data"), json);
}

#[test]
fn empty_fragment_has_the_digest_of_nothing() {
    let empty = ControlDatagram::empty_fragment();
    assert_eq!(
        field(&empty, "digest"),
        "e3b0c44298fc1c149afbf4c8996fb92427ae41e4649b934ca495991b7852b855"
    );
    assert_eq!(field(&empty, "index"), "00000");
    assert_eq!(field(&empty, "length"), "00000");
    assert_eq!(field(&empty, "data"), "");
    assert_eq!(field(&empty, "contentType"), "control_datagram");
}

#[test]
fn fragmentation_refuses_a_limit_without_room_for_data() {
    let empty_fragment_size = serialized_len(&ControlDatagram::empty_fragment());
    let json = to_json(&ControlDatagram::syn());
    assert!(!ControlDatagram::fragmentable(&json, empty_fragment_size as u16, empty_fragment_size));
    assert!(!ControlDatagram::fragmentable(&json, 10, empty_fragment_size));
    // One byte of room cannot carry a quote with its marker; two can.
    assert!(!ControlDatagram::fragmentable(&json, empty_fragment_size as u16 + 1, empty_fragment_size));
    assert!(ControlDatagram::fragmentable(&json, empty_fragment_size as u16 + 2, empty_fragment_size));
}

#[test]
fn fragmentation_refuses_a_cut_inside_a_character() {
    // "é" takes two bytes: a data room of two bytes would cut it after "a".
    assert!(!ControlDatagram::fragmentable("aé", 102, 100));
    assert!(ControlDatagram::fragmentable("aé", 103, 100));
    // A one-byte room cannot hold a marker together with its quote.
    assert!(!ControlDatagram::fragmentable("{\"\"}", 101, 100));
}

#[test]
fn fragmentation_keeps_each_quote_with_its_marker() {
    // Marked, the text is `{`, NUL, `"`, `é`, NUL, `"`, `}`. A piece that would end on a marker
    // ends one byte short, and the marker opens the next piece with its quote.
    let json = "{\"é\"}";
    let data = |max: u16| -> Vec<String> {
        assert!(ControlDatagram::fragmentable(json, max, 100));
        ControlDatagram::fragments_of_json(json, max, 100).iter().map(|f| field(f, "data")).collect()
    };
    assert_eq!(data(102), vec!["{", "\"", "é", "\"", "}"]);
    assert_eq!(data(103), vec!["{\"", "é", "\"}"]);
}

#[test]
fn reassembly_gives_back_the_datagram_text() {
    let datagram = client_data_with(7);
    let fragments = fragments(&datagram, 1400);
    let n = fragments.len();
    let mut handler = FragmentHandler::new();
    for (i, fragment) in fragments.into_iter().enumerate() {
        assert!(handler.accepts(&fragment));
        let result = handler.get_complete_datagram(fragment);
        if i + 1 < n {
            assert!(result.is_none());
        } else {
            assert_eq!(result.unwrap(), to_json(&datagram));
        }
    }
}

#[test]
fn reassembly_in_any_order() {
    let datagram = client_data_with(3);
    let mut fragments = fragments(&datagram, 1400);
    fragments.reverse();
    let n = fragments.len();
    let mut handler = FragmentHandler::new();
    for (i, fragment) in fragments.into_iter().enumerate() {
        let result = handler.get_complete_datagram(fragment);
        assert_eq!(result.is_some(), i + 1 == n);
        if let Some(json) = result {
            assert_eq!(json, to_json(&datagram));
        }
    }
}

fn raw_fragment(content_type: &str, index: &str, length: &str, digest: &str, data: Option<&str>) -> ControlDatagram {
    let mut content = hamesh::content::Content::new();
    content.insert("contentType".to_string(), content_type.to_string());
    content.insert("index".to_string(), index.to_string());
    content.insert("length".to_string(), length.to_string());
    content.insert("digest".to_string(), digest.to_string());
    if let Some(data) = data {
        content.insert("data".to_string(), data.to_string());
    }
    ControlDatagram { version: 1, kind: "fragment".to_string(), content }
}

#[test]
fn handler_ignores_other_content_types_and_bad_numbers() {
    let mut handler = FragmentHandler::new();
    assert!(handler.get_complete_datagram(raw_fragment("other", "0", "1", "d", Some("x"))).is_none());
    assert!(handler.get_complete_datagram(raw_fragment("control_datagram", "x", "1", "d", Some("x"))).is_none());
    assert!(handler.get_complete_datagram(raw_fragment("control_datagram", "0", "one", "d", Some("x"))).is_none());
    // A single fragment completes at once; numbers may carry a sign or leading zeros.
    assert_eq!(
        handler.get_complete_datagram(raw_fragment("control_datagram", "+00", "0001", "d", Some("{}"))),
        Some("{}".to_string())
    );
    // A non-positive length assembles nothing.
    assert_eq!(
        handler.get_complete_datagram(raw_fragment("control_datagram", "0", "-1", "e", Some("x"))),
        Some(String::new())
    );
}

#[test]
fn handler_refuses_a_fragment_whose_data_it_would_need_but_lacks() {
    let handler = FragmentHandler::new();
    assert!(!handler.accepts(&raw_fragment("control_datagram", "0", "1", "d", None)));
    assert!(handler.accepts(&raw_fragment("control_datagram", "1", "2", "d", None)));
    let mut no_type = raw_fragment("control_datagram", "0", "1", "d", None);
    no_type.content = hamesh::content::Content::new();
    assert!(!handler.accepts(&no_type));
}

#[test]
fn handler_forgets_everything_beyond_512_fragments() {
    let mut handler = FragmentHandler::new();
    for i in 0..512 {
        let r = handler.get_complete_datagram(raw_fragment(
            "control_datagram",
            &i.to_string(),
            "600",
            "big",
            Some("x"),
        ));
        assert!(r.is_none());
    }
    // The 513th fragment empties the store, so a one-fragment datagram still completes.
    let r = handler.get_complete_datagram(raw_fragment("control_datagram", "0", "1", "small", Some("{}")));
    assert!(r.is_none());
    let r = handler.get_complete_datagram(raw_fragment("control_datagram", "0", "1", "small", Some("{}")));
    assert_eq!(r, Some("{}".to_string()));
}

#[test]
fn halves_cut_the_text_at_half_its_bytes() {
    let json = "{\"ab\"}";
    let halves = ControlDatagram::halves_of_json(json);
    assert_eq!(field(&halves[0], "data"), "{\"a");
    assert_eq!(field(&halves[1], "data"), "b\"}");
    for (i, half) in halves.iter().enumerate() {
        assert_eq!(half.kind, "fragment");
        assert_eq!(field(half, "index"), i.to_string());
        assert_eq!(field(half, "length"), "2");
        assert_eq!(field(half, "contentType"), "control_datagram");
        assert_eq!(field(half, "digest"), sha256::digest(json));
    }
    assert!(ControlDatagram::halvable("aé"));
    assert!(!ControlDatagram::halvable("é"));
    assert!(ControlDatagram::halvable(""));
}

#[test]
fn halves_reassemble_in_either_order() {
    let json = to_json(&client_data_with(3));
    let [first, second] = ControlDatagram::halves_of_json(&json);
    let mut in_order = FragmentHandler::new();
    assert!(in_order.get_complete_datagram(first.clone()).is_none());
    assert_eq!(in_order.get_complete_datagram(second.clone()), Some(json.clone()));
    let mut reversed = FragmentHandler::new();
    assert!(reversed.get_complete_datagram(second).is_none());
    assert_eq!(reversed.get_complete_datagram(first), Some(json));
}

#[test]
fn reassembly_in_reverse_order_gives_back_the_datagram_text() {
    let datagram = client_data_with(11);
    let fragments = fragments(&datagram, 1400);
    let n = fragments.len();
    assert!(n > 2);
    let mut handler = FragmentHandler::new();
    for (i, fragment) in fragments.into_iter().rev().enumerate() {
        let result = handler.get_complete_datagram(fragment);
        if i + 1 < n {
            assert!(result.is_none());
        } else {
            assert_eq!(result.unwrap(), to_json(&datagram));
        }
    }
}

#[test]
fn fragments_of_quote_heavy_datagrams_fit_the_limit() {
    let mut datagram = ControlDatagram::syn();
    for i in 0..40 {
        datagram.content.insert(format!("k{i}"), format!("v{i}"));
    }
    let empty_fragment_size = serialized_len(&ControlDatagram::empty_fragment()) as u16;
    for max in empty_fragment_size + 2..empty_fragment_size + 80 {
        let fragments = fragments(&datagram, max);
        for fragment in &fragments[..fragments.len() - 1] {
            let size = serialized_len(fragment);
            assert!(size == max as usize || size == max as usize - 1, "{size} for {max}");
        }
        assert!(serialized_len(fragments.last().unwrap()) <= max as usize);
        let joined: String = fragments.iter().map(|f| field(f, "data")).collect();
        assert_eq!(joined, to_json(&datagram));
    }
}
