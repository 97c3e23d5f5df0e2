# esp32c6-probe

Firmware for an ESP32-C6 that connects to WiFi, gets an IPv4 address via DHCP, and then
continuously reads temperature and humidity from an HDC3022 sensor and publishes the readings to
an MQTT server. A message on the topic `updates/1` makes it fetch a new firmware image over HTTP
and boot from it.

## Layout

- `src/` is a library with everything the probe decides. It is verified with Verus.
  - `probe`: start-up and the measuring cycle
  - `wifi`: staying connected to the network
  - `mqtt`: the conversation with the broker
  - `message`: the texts that are exchanged
  - `update`: updates over the air
  - `slot`: application slots and image states
  - `partitions`: the partition table in flash
- `app/` is the firmware around it: it carries out the steps that the library asks for, and
  reports back what came of them.
- `tests/` runs the library, the update against a flash in memory.

## Flashing

To flash the device after plugging it in via USB-C:

```
WIFI_SSID=wifi_ssid WIFI_PASSWORD=wifi_password MQTT_SERVER_IPV4=192.0.2.0 MQTT_USERNAME=mqtt_username MQTT_PASSWORD=mqtt_password cargo run
```

## Updating

To build a firmware image for an update over the air:

```
$ WIFI_SSID=wifi_ssid WIFI_PASSWORD=wifi_password MQTT_SERVER_IPV4=192.0.2.0 MQTT_USERNAME=mqtt_username MQTT_PASSWORD=mqtt_password cargo build --release
$ espflash save-image --chip=esp32c6 target/riscv32imac-unknown-none-elf/release/esp32c6-probe firmware
```

The resulting file named "firmware" can now be put on a web server, from which the probe fetches
it as `http://192.168.10.1/firmware`.

The update is triggered by sending any MQTT message:

```
mosquitto_pub -h 10.0.0.2 -u username -P password -t updates/1 -m "test message"
```
