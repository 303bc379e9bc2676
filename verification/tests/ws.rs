use omp_relayd::ws::{
    axum_to_tungstenite, bridge, bridge_sent, tungstenite_to_axum, BridgeEvent, BridgeStep,
    ClientMessage, CloseFrame, UpstreamMessage,
};

fn close(code: u16) -> Option<CloseFrame> {
    Some(CloseFrame { code, reason: "done".to_owned() })
}

fn pairs() -> Vec<(ClientMessage, UpstreamMessage)> {
    vec![
        (ClientMessage::Text("é".to_owned()), UpstreamMessage::Text("é".to_owned())),
        (ClientMessage::Binary(vec![0, 255]), UpstreamMessage::Binary(vec![0, 255])),
        (ClientMessage::Ping(vec![1]), UpstreamMessage::Ping(vec![1])),
        (ClientMessage::Pong(vec![2]), UpstreamMessage::Pong(vec![2])),
        (ClientMessage::Close(None), UpstreamMessage::Close(None)),
        (ClientMessage::Close(close(4_001)), UpstreamMessage::Close(close(4_001))),
    ]
}

#[test]
fn messages_say_the_same_on_both_sides() {
    for (client, upstream) in pairs() {
        assert_eq!(axum_to_tungstenite(client.clone()), upstream);
        assert_eq!(tungstenite_to_axum(upstream), Some(client));
    }
    assert_eq!(tungstenite_to_axum(UpstreamMessage::Frame), None);
}

#[test]
fn the_bridge_carries_messages_both_ways() {
    for (client, upstream) in pairs() {
        let last = matches!(client, ClientMessage::Close(_));
        assert_eq!(
            bridge(BridgeEvent::Client(Some(client.clone()))),
            BridgeStep::ToUpstream { up: upstream.clone(), last }
        );
        assert_eq!(
            bridge(BridgeEvent::Upstream(Some(upstream))),
            BridgeStep::ToClient { down: client, last }
        );
    }
}

#[test]
fn the_bridge_ends_where_an_end_closes() {
    assert_eq!(bridge(BridgeEvent::Client(None)), BridgeStep::Finish);
    assert_eq!(bridge(BridgeEvent::Upstream(None)), BridgeStep::Finish);
    assert_eq!(bridge(BridgeEvent::Upstream(Some(UpstreamMessage::Frame))), BridgeStep::Receive);
    assert_eq!(bridge_sent(false, true), BridgeStep::Receive);
    assert_eq!(bridge_sent(true, true), BridgeStep::Finish);
    assert_eq!(bridge_sent(false, false), BridgeStep::Finish);
    assert_eq!(bridge_sent(true, false), BridgeStep::Finish);
}

#[test]
fn nothing_goes_over_the_bridge_after_a_close() {
    let events = vec![
        BridgeEvent::Client(Some(ClientMessage::Text("a".to_owned()))),
        BridgeEvent::Upstream(Some(UpstreamMessage::Frame)),
        BridgeEvent::Upstream(Some(UpstreamMessage::Text("b".to_owned()))),
        BridgeEvent::Client(Some(ClientMessage::Close(close(1_000)))),
        BridgeEvent::Upstream(Some(UpstreamMessage::Text("c".to_owned()))),
    ];
    let mut sent: Vec<String> = Vec::new();
    for event in events {
        let step = match bridge(event) {
            BridgeStep::ToUpstream { up, last } => {
                sent.push(format!("up {up:?}"));
                bridge_sent(last, true)
            }
            BridgeStep::ToClient { down, last } => {
                sent.push(format!("down {down:?}"));
                bridge_sent(last, true)
            }
            other => other,
        };
        if step == BridgeStep::Finish {
            break;
        }
    }
    assert_eq!(sent.len(), 3);
    assert_eq!(sent[0], "up Text(\"a\")");
    assert_eq!(sent[1], "down Text(\"b\")");
    assert!(sent[2].starts_with("up Close"));
}

#[test]
fn what_goes_over_the_bridge_is_what_came_in_first() {
    let texts = ["a", "b", "c"];
    for failing in 0..texts.len() {
        let mut sent: Vec<String> = Vec::new();
        for (n, text) in texts.iter().enumerate() {
            let step = bridge(BridgeEvent::Client(Some(ClientMessage::Text((*text).to_owned()))));
            let last = match step {
                BridgeStep::ToUpstream { up: UpstreamMessage::Text(text), last } => {
                    sent.push(text);
                    last
                }
                _ => panic!("a text goes upstream"),
            };
            if bridge_sent(last, n != failing) == BridgeStep::Finish {
                break;
            }
        }
        assert_eq!(sent, texts[..=failing]);
    }
}
