use websrv_core::commands::{filescan_commands, mu_commands, new_job_id, nu_commands, publish_commands};
use websrv_core::deploy::{
    format_dns_name, image_id, newdnsname, nu_reply, serving_manifest, DeployError,
};

#[test]
fn filescan_command_lines() {
    let c = filescan_commands(b"1234-abcd");
    assert_eq!(c.scan, b"clamscan 1234-abcd".to_vec());
    assert_eq!(c.checksum, b"sha256sum -b 1234-abcd".to_vec());
    assert_eq!(c.cleanup, b"rm 1234-abcd".to_vec());
}

#[test]
fn mu_command_lines() {
    let c = mu_commands(b"u1");
    assert_eq!(c.program, b"u1/u1".to_vec());
    assert_eq!(c.run, b"python3 u1/u1".to_vec());
    assert_eq!(c.cleanup, b"rm -rf u1".to_vec());
}

#[test]
fn nu_command_lines() {
    let c = nu_commands(b"/srv/html/base_dockerfile", b"u1");
    assert_eq!(c.program, b"u1/u1".to_vec());
    assert_eq!(c.copy_base, b"cp /srv/html/base_dockerfile u1".to_vec());
    assert_eq!(c.start_dockerfile, b"cat u1/base_dockerfile > u1/dockerfile".to_vec());
    assert_eq!(c.add_copy, b"echo \"\nCOPY u1 /\n\" >> u1/dockerfile".to_vec());
    assert_eq!(c.add_cmd, b"echo '\nCMD [\"python3\",\"/u1\"]\n' >> u1/dockerfile".to_vec());
    assert_eq!(c.build, b"docker build -f u1/dockerfile .".to_vec());
    assert_eq!(c.manifest, b"u1/u1.yaml".to_vec());
    assert_eq!(c.apply, b"kubectl apply -f u1/u1.yaml".to_vec());
    let p = publish_commands(b"5f3a");
    assert_eq!(p.tag, b"docker tag 5f3a registry.bokuno.pw/5f3a".to_vec());
    assert_eq!(p.push, b"docker push registry.bokuno.pw/5f3a".to_vec());
}

#[test]
fn image_id_from_build_output() {
    let out = b"Step 1/3 : FROM x\n ---> 1111\nSuccessfully built 5f3a9c\nSuccessfully tagged y\n";
    assert_eq!(image_id(out), Ok(b"5f3a9c".to_vec()));
    let two = b"Successfully built aaa\r\nSuccessfully built bbb\r\n";
    assert_eq!(image_id(two), Ok(b"bbb".to_vec()));
    assert_eq!(image_id(b"no image here\n"), Ok(vec![]));
    assert_eq!(image_id(b""), Ok(vec![]));
}

#[test]
fn image_id_errors() {
    assert_eq!(image_id(b"Successfully built\n"), Err(DeployError::MissingImageId));
    assert_eq!(image_id(b"x\xff\n"), Err(DeployError::BuildOutputNotUtf8));
}

#[test]
fn manifest_placeholders_are_filled() {
    let template = b"image: r/{containerid}\nname: {my_uuid.to_string()}\nkeep: {containerid} {containerid}\nplain";
    let m = serving_manifest(template, "5f3a", "abcd0042");
    assert_eq!(
        m,
        Ok(b"image: r/5f3a\nname: abcd0042\nkeep: 5f3a {containerid}\nplain\n".to_vec())
    );
}

#[test]
fn manifest_placeholders_follow_regex_rules() {
    // the `.` of the service-name pattern matches any character
    assert_eq!(
        serving_manifest(b"name: {my_uuidXto_string()}", "x", "abcd0042"),
        Ok(b"name: abcd0042\n".to_vec())
    );
    // `${0}` in the inserted text stands for the whole match, `$$` for a `$`
    assert_eq!(
        serving_manifest(b"image: {containerid}", "a${0}b$$c", "n"),
        Ok(b"image: a{containerid}b$c\n".to_vec())
    );
    // `$0b` names a group `0b` that the pattern does not have: it is dropped
    assert_eq!(
        serving_manifest(b"image: {containerid}", "a$0b$$c", "n"),
        Ok(b"image: a$c\n".to_vec())
    );
    // a line with the image placeholder takes no service name
    assert_eq!(
        serving_manifest(b"{containerid} {my_uuid.to_string()}", "i", "n"),
        Ok(b"i {my_uuid.to_string()}\n".to_vec())
    );
}

#[test]
fn manifest_without_placeholders_is_copied() {
    let template = b"apiVersion: v1\nkind: Service\n";
    assert_eq!(serving_manifest(template, "x", "y"), Ok(b"apiVersion: v1\nkind: Service\n\n".to_vec()));
    assert_eq!(serving_manifest(b"\xff{containerid}", "x", "y"), Ok(b"\n".to_vec()));
}

#[test]
fn nu_reply_names_the_service() {
    assert_eq!(
        nu_reply(b"built\n", b"abcd0042"),
        b"HTTP/1.1 200 OK\r\n\r\nbuilt\ncreated service on fqdn : http://abcd0042.default.dev.mu-system.bokuno.pw".to_vec()
    );
}

#[test]
fn dns_names_have_four_letters_and_four_digits() {
    assert_eq!(format_dns_name(b"abcd", 42), "abcd0042");
    assert_eq!(format_dns_name(b"zzzz", 9998), "zzzz9998");
    assert_eq!(format_dns_name(b"qwer", 0), "qwer0000");
    for _ in 0..50 {
        let name = newdnsname();
        let chars: Vec<char> = name.chars().collect();
        assert_eq!(chars.len(), 8);
        assert!(chars[..4].iter().all(|c| c.is_ascii_lowercase()));
        assert!(chars[4..].iter().all(|c| c.is_ascii_digit()));
        assert!(name[4..].parse::<u32>().unwrap() < 9999);
    }
}

#[test]
fn job_ids_are_random_v4_uuids() {
    let a = new_job_id();
    let b = new_job_id();
    assert_ne!(a, b);
    for id in [a, b] {
        let chars: Vec<char> = id.chars().collect();
        assert_eq!(chars.len(), 36);
        for (i, c) in chars.iter().enumerate() {
            if i == 8 || i == 13 || i == 18 || i == 23 {
                assert_eq!(*c, '-');
            } else {
                assert!(c.is_ascii_digit() || ('a'..='f').contains(c));
            }
        }
        assert_eq!(chars[14], '4');
        assert!(['8', '9', 'a', 'b'].contains(&chars[19]));
    }
}
