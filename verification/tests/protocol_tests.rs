use monero_web_coordinator::codec::{
    error_code_name, parse_client, parse_server, serialize_client, serialize_server, status_name,
};
use monero_web_coordinator::protocol::{
    ClientMessage, ErrorCode, HelloPayload, PingPayload, PolicyPayload, ServerMessage,
    SharePayload, StatsPayload, SubmitPayload, SubmitStatus,
};
use monero_web_coordinator::protocol::{JobPayload, SubmitResultPayload};
use monero_web_coordinator::codec::{round_trip_client, round_trip_server};
use monero_web_coordinator::protocol::{ErrorPayload, PongPayload};

#[test]
fn test_hello_message_serialization() {
    let hello = ClientMessage::Hello {
        v: 1,
        id: Some("test-id".to_string()),
        payload: HelloPayload {
            miner_version: "1.0.0".to_string(),
            threads: 4,
            site_token: Some("token123".to_string()),
            user_agent_hint: Some("Chrome".to_string()),
            supports_binary: Some(false),
            randomx_mode: Some("fast".to_string()),
        },
    };

    let json = serialize_client(&hello);
    assert!(json.contains("\"type\":\"hello\""));
    assert!(json.contains("\"v\":1"));
    assert!(json.contains("\"id\":\"test-id\""));
    assert!(json.contains("\"miner_version\":\"1.0.0\""));
    assert!(json.contains("\"threads\":4"));
    assert!(json.contains("\"site_token\":\"token123\""));
    assert!(json.contains("\"user_agent_hint\":\"Chrome\""));
    assert!(json.contains("\"supports_binary\":false"));
    assert!(json.contains("\"randomx_mode\":\"fast\""));

    // Test deserialization
    let deserialized: ClientMessage = parse_client(&json).unwrap();
    match deserialized {
        ClientMessage::Hello { v, id, payload } => {
            assert_eq!(v, 1);
            assert_eq!(id, Some("test-id".to_string()));
            assert_eq!(payload.miner_version, "1.0.0");
            assert_eq!(payload.threads, 4);
            assert_eq!(payload.site_token, Some("token123".to_string()));
            assert_eq!(payload.user_agent_hint, Some("Chrome".to_string()));
            assert_eq!(payload.supports_binary, Some(false));
            assert_eq!(payload.randomx_mode, Some("fast".to_string()));
        }
        _ => panic!("Wrong message type"),
    }
}

#[test]
fn test_submit_message_serialization() {
    let submit = ClientMessage::Submit {
        v: 1,
        id: "submit-123".to_string(),
        payload: SubmitPayload {
            job_id: "job-456".to_string(),
            nonce: "12345678".to_string(),
        },
    };

    let json = serialize_client(&submit);
    assert!(json.contains("\"type\":\"submit\""));
    assert!(json.contains("\"v\":1"));
    assert!(json.contains("\"id\":\"submit-123\""));
    assert!(json.contains("\"job_id\":\"job-456\""));
    assert!(json.contains("\"nonce\":\"12345678\""));

    // Test deserialization
    let deserialized: ClientMessage = parse_client(&json).unwrap();
    match deserialized {
        ClientMessage::Submit { v, id, payload } => {
            assert_eq!(v, 1);
            assert_eq!(id, "submit-123");
            assert_eq!(payload.job_id, "job-456");
            assert_eq!(payload.nonce, "12345678");
        }
        _ => panic!("Wrong message type"),
    }
}

#[test]
fn test_share_message_serialization() {
    let share = ClientMessage::Share {
        v: 1,
        id: Some("share-789".to_string()),
        payload: SharePayload {
            job_id: "job-456".to_string(),
            nonce: 0x12345678,
            result_hash_hex: "abcdef0123456789".to_string(),
        },
    };

    let json = serialize_client(&share);
    assert!(json.contains("\"type\":\"share\""));
    assert!(json.contains("\"v\":1"));
    assert!(json.contains("\"id\":\"share-789\""));
    assert!(json.contains("\"job_id\":\"job-456\""));
    assert!(json.contains("\"nonce\":305419896"));
    assert!(json.contains("\"result_hash_hex\":\"abcdef0123456789\""));

    // Test deserialization
    let deserialized: ClientMessage = parse_client(&json).unwrap();
    match deserialized {
        ClientMessage::Share { v, id, payload } => {
            assert_eq!(v, 1);
            assert_eq!(id, Some("share-789".to_string()));
            assert_eq!(payload.job_id, "job-456");
            assert_eq!(payload.nonce, 0x12345678);
            assert_eq!(payload.result_hash_hex, "abcdef0123456789");
        }
        _ => panic!("Wrong message type"),
    }
}

#[test]
fn test_ping_message_serialization() {
    let ping = ClientMessage::Ping {
        v: 1,
        id: "ping-123".to_string(),
        payload: PingPayload {},
    };

    let json = serialize_client(&ping);
    assert!(json.contains("\"type\":\"ping\""));
    assert!(json.contains("\"v\":1"));
    assert!(json.contains("\"id\":\"ping-123\""));

    // Test deserialization
    let deserialized: ClientMessage = parse_client(&json).unwrap();
    match deserialized {
        ClientMessage::Ping { v, id, .. } => {
            assert_eq!(v, 1);
            assert_eq!(id, "ping-123");
        }
        _ => panic!("Wrong message type"),
    }
}

#[test]
fn test_stats_message_serialization() {
    let stats = ServerMessage::Stats {
        v: 1,
        id: Some("stats-123".to_string()),
        payload: StatsPayload {
            session_id: "session-abc".to_string(),
            submits_per_minute: 10,
            messages_per_second: 20,
            policy: PolicyPayload {
                job_ttl_ms: 30000,
                max_submits_per_min: 10,
                max_shares_per_min: 120,
            },
            server_time_ms: 1640000000000,
            tip_height: 2500000,
        },
    };

    let json = serialize_server(&stats);
    assert!(json.contains("\"type\":\"stats\""));
    assert!(json.contains("\"v\":1"));
    assert!(json.contains("\"id\":\"stats-123\""));
    assert!(json.contains("\"session_id\":\"session-abc\""));
    assert!(json.contains("\"submits_per_minute\":10"));
    assert!(json.contains("\"messages_per_second\":20"));
    assert!(json.contains("\"policy\""));
    assert!(json.contains("\"job_ttl_ms\":30000"));
    assert!(json.contains("\"max_submits_per_min\":10"));
    assert!(json.contains("\"max_shares_per_min\":120"));
    assert!(json.contains("\"server_time_ms\":1640000000000"));
    assert!(json.contains("\"tip_height\":2500000"));

    // Test deserialization
    let deserialized: ServerMessage = parse_server(&json).unwrap();
    match deserialized {
        ServerMessage::Stats { v, id, payload } => {
            assert_eq!(v, 1);
            assert_eq!(id, Some("stats-123".to_string()));
            assert_eq!(payload.session_id, "session-abc");
            assert_eq!(payload.submits_per_minute, 10);
            assert_eq!(payload.messages_per_second, 20);
            assert_eq!(payload.policy.job_ttl_ms, 30000);
            assert_eq!(payload.policy.max_submits_per_min, 10);
            assert_eq!(payload.policy.max_shares_per_min, 120);
            assert_eq!(payload.server_time_ms, 1640000000000);
            assert_eq!(payload.tip_height, 2500000);
        }
        _ => panic!("Wrong message type"),
    }
}

#[test]
fn test_job_message_serialization() {
    let job = ServerMessage::Job {
        v: 1,
        id: None,
        payload: JobPayload {
            job_id: "job-123".to_string(),
            blob_hex: "0a0a0a".to_string(),
            reserved_offset: 42,
            reserved_value_hex: "deadbeef".to_string(),
            target_hex: "ffffff".to_string(),
            height: 2500000,
            seed_hash: "abc123".to_string(),
            expires_at_ms: 1640030000000,
            share_target_hex: Some("aaaaaa".to_string()),
            algo: "randomx".to_string(),
        },
    };

    let json = serialize_server(&job);
    assert!(json.contains("\"type\":\"job\""));
    assert!(json.contains("\"v\":1"));
    assert!(json.contains("\"job_id\":\"job-123\""));
    assert!(json.contains("\"blob_hex\":\"0a0a0a\""));
    assert!(json.contains("\"reserved_offset\":42"));
    assert!(json.contains("\"reserved_value_hex\":\"deadbeef\""));
    assert!(json.contains("\"target_hex\":\"ffffff\""));
    assert!(json.contains("\"height\":2500000"));
    assert!(json.contains("\"seed_hash\":\"abc123\""));
    assert!(json.contains("\"expires_at_ms\":1640030000000"));
    assert!(json.contains("\"share_target_hex\":\"aaaaaa\""));
    assert!(json.contains("\"algo\":\"randomx\""));

    // Test deserialization
    let deserialized: ServerMessage = parse_server(&json).unwrap();
    match deserialized {
        ServerMessage::Job { v, id, payload } => {
            assert_eq!(v, 1);
            assert_eq!(id, None);
            assert_eq!(payload.job_id, "job-123");
            assert_eq!(payload.blob_hex, "0a0a0a");
            assert_eq!(payload.reserved_offset, 42);
            assert_eq!(payload.reserved_value_hex, "deadbeef");
            assert_eq!(payload.target_hex, "ffffff");
            assert_eq!(payload.height, 2500000);
            assert_eq!(payload.seed_hash, "abc123");
            assert_eq!(payload.expires_at_ms, 1640030000000);
            assert_eq!(payload.share_target_hex, Some("aaaaaa".to_string()));
            assert_eq!(payload.algo, "randomx");
        }
        _ => panic!("Wrong message type"),
    }
}

#[test]
fn test_submit_result_message_serialization() {
    let submit_result = ServerMessage::SubmitResult {
        v: 1,
        id: "submit-123".to_string(),
        payload: SubmitResultPayload {
            status: SubmitStatus::Accepted,
            message: Some("Block accepted".to_string()),
        },
    };

    let json = serialize_server(&submit_result);
    assert!(json.contains("\"type\":\"submit_result\""));
    assert!(json.contains("\"v\":1"));
    assert!(json.contains("\"id\":\"submit-123\""));
    assert!(json.contains("\"status\":\"ACCEPTED\""));
    assert!(json.contains("\"message\":\"Block accepted\""));

    // Test deserialization
    let deserialized: ServerMessage = parse_server(&json).unwrap();
    match deserialized {
        ServerMessage::SubmitResult { v, id, payload } => {
            assert_eq!(v, 1);
            assert_eq!(id, "submit-123");
            match payload.status {
                SubmitStatus::Accepted => {}
                _ => panic!("Wrong status"),
            }
            assert_eq!(payload.message, Some("Block accepted".to_string()));
        }
        _ => panic!("Wrong message type"),
    }
}

#[test]
fn test_error_message_serialization() {
    let error = ServerMessage::error(
        Some("req-123".to_string()),
        ErrorCode::BadFormat,
        "Invalid message format",
    );

    let json = serialize_server(&error);
    assert!(json.contains("\"type\":\"error\""));
    assert!(json.contains("\"v\":1"));
    assert!(json.contains("\"id\":\"req-123\""));
    assert!(json.contains("\"code\":\"BAD_FORMAT\""));
    assert!(json.contains("\"message\":\"Invalid message format\""));

    // Test deserialization
    let deserialized: ServerMessage = parse_server(&json).unwrap();
    match deserialized {
        ServerMessage::Error { v, id, payload } => {
            assert_eq!(v, 1);
            assert_eq!(id, Some("req-123".to_string()));
            match payload.code {
                ErrorCode::BadFormat => {}
                _ => panic!("Wrong error code"),
            }
            assert_eq!(payload.message, "Invalid message format");
        }
        _ => panic!("Wrong message type"),
    }
}

#[test]
fn test_pong_message_serialization() {
    let pong = ServerMessage::Pong {
        v: 1,
        id: "ping-123".to_string(),
        payload: PongPayload {},
    };

    let json = serialize_server(&pong);
    assert!(json.contains("\"type\":\"pong\""));
    assert!(json.contains("\"v\":1"));
    assert!(json.contains("\"id\":\"ping-123\""));

    // Test deserialization
    let deserialized: ServerMessage = parse_server(&json).unwrap();
    match deserialized {
        ServerMessage::Pong { v, id, .. } => {
            assert_eq!(v, 1);
            assert_eq!(id, "ping-123");
        }
        _ => panic!("Wrong message type"),
    }
}

#[test]
fn test_all_error_codes() {
    let error_codes = vec![
        ErrorCode::BadFormat,
        ErrorCode::Unauthorized,
        ErrorCode::RateLimit,
        ErrorCode::StaleJob,
        ErrorCode::BadJob,
        ErrorCode::BadReserved,
        ErrorCode::BadPow,
        ErrorCode::Internal,
        ErrorCode::RpcDown,
    ];

    let expected_names = vec![
        "BAD_FORMAT",
        "UNAUTHORIZED",
        "RATE_LIMIT",
        "STALE_JOB",
        "BAD_JOB",
        "BAD_RESERVED",
        "BAD_POW",
        "INTERNAL",
        "RPC_DOWN",
    ];

    for (code, expected) in error_codes.iter().zip(expected_names.iter()) {
        let name = error_code_name(*code);
        assert_eq!(format!("\"{}\"", name), format!("\"{}\"", expected));
    }
}

#[test]
fn test_all_submit_statuses() {
    let statuses = vec![
        SubmitStatus::Accepted,
        SubmitStatus::Rejected,
        SubmitStatus::Stale,
        SubmitStatus::Error,
    ];

    let expected_names = vec!["ACCEPTED", "REJECTED", "STALE", "ERROR"];

    for (status, expected) in statuses.iter().zip(expected_names.iter()) {
        let name = status_name(*status);
        assert_eq!(format!("\"{}\"", name), format!("\"{}\"", expected));
    }
}

#[test]
fn test_round_trip_with_absent_optionals() {
    let hello = ClientMessage::Hello {
        v: 1,
        id: None,
        payload: HelloPayload {
            miner_version: "x/1".to_string(),
            threads: 2,
            site_token: None,
            user_agent_hint: None,
            supports_binary: None,
            randomx_mode: None,
        },
    };
    let json = serialize_client(&hello);
    assert_eq!(
        json,
        "{\"type\":\"hello\",\"v\":1,\"payload\":{\"miner_version\":\"x/1\",\"threads\":2}}"
    );
    match parse_client(&json).unwrap() {
        ClientMessage::Hello { v, id, payload } => {
            assert_eq!(v, 1);
            assert_eq!(id, None);
            assert_eq!(payload.miner_version, "x/1");
            assert_eq!(payload.threads, 2);
            assert_eq!(payload.site_token, None);
        }
        _ => panic!("Wrong message type"),
    }
}

#[test]
fn test_round_trip_escaped_strings() {
    let submit = ClientMessage::Submit {
        v: 1,
        id: "a\"b\\c".to_string(),
        payload: SubmitPayload {
            job_id: "j\\\"".to_string(),
            nonce: "00ab12cd".to_string(),
        },
    };
    let json = serialize_client(&submit);
    match parse_client(&json).unwrap() {
        ClientMessage::Submit { id, payload, .. } => {
            assert_eq!(id, "a\"b\\c");
            assert_eq!(payload.job_id, "j\\\"");
            assert_eq!(payload.nonce, "00ab12cd");
        }
        _ => panic!("Wrong message type"),
    }
}

#[test]
fn test_parse_rejects_garbage() {
    assert!(parse_client("{\"type\":\"nonsense\",\"v\":1}").is_none());
    assert!(parse_client("not json at all").is_none());
    assert!(parse_client("").is_none());
    assert!(parse_server("{\"type\":\"stats\"").is_none());
}

#[test]
fn test_round_trip_all_server_messages() {
    let msgs = vec![
        ServerMessage::Stats {
            v: 1,
            id: None,
            payload: StatsPayload {
                session_id: "s".to_string(),
                submits_per_minute: 1,
                messages_per_second: 2,
                policy: PolicyPayload {
                    job_ttl_ms: 3,
                    max_submits_per_min: 4,
                    max_shares_per_min: 5,
                },
                server_time_ms: 6,
                tip_height: 7,
            },
        },
        ServerMessage::Job {
            v: 1,
            id: Some("j".to_string()),
            payload: JobPayload {
                job_id: "0000000000000001".to_string(),
                blob_hex: "0a".to_string(),
                reserved_offset: 55,
                reserved_value_hex: "ff".to_string(),
                target_hex: "80".to_string(),
                height: 9,
                seed_hash: "ab".to_string(),
                expires_at_ms: 10,
                share_target_hex: None,
                algo: "rx/0".to_string(),
            },
        },
        ServerMessage::SubmitResult {
            v: 1,
            id: "x".to_string(),
            payload: SubmitResultPayload { status: SubmitStatus::Stale, message: None },
        },
        ServerMessage::Error {
            v: 1,
            id: None,
            payload: ErrorPayload { code: ErrorCode::RateLimit, message: "limit".to_string() },
        },
        ServerMessage::Pong { v: 1, id: "p".to_string(), payload: PongPayload {} },
    ];
    for m in msgs.iter() {
        // The verified contract of round_trip_server pins the fields; the
        // test shows the parse side actually succeeds.
        assert!(round_trip_server(m).is_some());
    }
}

#[test]
fn test_round_trip_all_client_messages() {
    let msgs = vec![
        ClientMessage::Hello {
            v: 1,
            id: Some("i".to_string()),
            payload: HelloPayload {
                miner_version: "m/1".to_string(),
                threads: 8,
                site_token: None,
                user_agent_hint: Some("ua".to_string()),
                supports_binary: Some(true),
                randomx_mode: None,
            },
        },
        ClientMessage::Submit {
            v: 1,
            id: "s1".to_string(),
            payload: SubmitPayload {
                job_id: "0000000000000000".to_string(),
                nonce: "00ab12cd".to_string(),
            },
        },
        ClientMessage::Share {
            v: 1,
            id: None,
            payload: SharePayload {
                job_id: "0000000000000000".to_string(),
                nonce: 77,
                result_hash_hex: "dd".to_string(),
            },
        },
        ClientMessage::Ping { v: 1, id: "p9".to_string(), payload: PingPayload {} },
    ];
    for m in msgs.iter() {
        assert!(round_trip_client(m).is_some());
    }
}
